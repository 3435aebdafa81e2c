//! The authoritative tick loop: the sole owner of connection and player
//! state. It consumes decoded packets, decides transitions per the protocol
//! state machine, and emits the packets and state updates the registry routes
//! out. It never touches a socket; positions are fixed-point wire units
//! (1/4096 block) beside their IEEE-754 bit patterns, and every floating
//! point conversion happens outside, handing plain values in.

use vstd::prelude::*;

use crate::chunk::Chunk;
use crate::gamemode::Gamemode;
use crate::outgoing::OutgoingPacket;
use crate::packets::IncomingPacket;
use crate::player_info::PlayerInfoUpdateActions;
use crate::position::Position;
use crate::state::ConnectionState;
use crate::string::string_fits;
use crate::util::{get_chunk, is_generated_chunk};
use crate::uuid::{offline_uuid, Uuid};

verus! {

pub const SEED: i64 = 0;

pub const VIEW_DISTANCE: i32 = 16;

pub const SIMULATION_DISTANCE: i32 = 0;

pub const IS_HARDCORE: bool = false;

pub const REDUCED_DEBUG_INFO: bool = false;

pub const ENABLE_RESPAWN_SCREEN: bool = true;

pub const IS_DEBUG: bool = false;

pub const IS_FLAT: bool = true;

/// Spawn x and z: 0.5 blocks, in 1/4096 wire units and as IEEE-754 bits.
pub const SPAWN_XZ_FP: i64 = 2048;

/// Spawn y: 65 blocks.
pub const SPAWN_Y_FP: i64 = 266240;

/// IEEE-754 bits of the 0.5 spawn x/z coordinate.
pub const SPAWN_XZ_BITS: u64 = 0x3FE0000000000000;

/// IEEE-754 bits of the 65.0 spawn y coordinate.
pub const SPAWN_Y_BITS: u64 = 0x4050400000000000;

/// Positions are bounded so per-tick deltas cannot overflow.
pub const FP_BOUND: i64 = 0x2000000000;

/// How long a silent connection lives, in milliseconds.
pub const TIMEOUT_MS: u64 = 5000;

/// Keep-alives go out every this many ticks.
pub const KEEPALIVE_INTERVAL: u64 = 20;

/// One connection as the tick loop sees it: its protocol state and when it
/// last showed life.
pub struct Connection {
    pub last_timeout: u64,
    pub state: ConnectionState,
}

impl Connection {
    /// A fresh connection: in the handshake state, alive as of `now`.
    pub fn new(now: u64) -> (r: Self)
        ensures
            r.state == ConnectionState::Handshake,
            r.last_timeout == now,
    {
        Connection { last_timeout: now, state: ConnectionState::Handshake }
    }
}

/// A decoded packet tagged with the connection it came from.
pub struct WrappedIncomingPacket {
    pub conn_id: i32,
    pub packet: IncomingPacket,
}

/// An outgoing packet tagged with the connection it goes to.
pub struct WrappedOutgoingPacket {
    pub conn_id: i32,
    pub packet: OutgoingPacket,
}

/// A state update for one connection's reader.
pub struct WrappedConnectionState {
    pub conn_id: i32,
    pub state: ConnectionState,
}

/// A request to resolve a use-item teleport outside the tick loop: the
/// trigonometry runs on floats, so the caller computes the landing spot from
/// these bit patterns and hands the result back.
pub struct UseItemRequest {
    pub conn_id: i32,
    pub x_bits: u64,
    pub y_bits: u64,
    pub z_bits: u64,
    pub yaw_bits: u32,
    pub pitch_bits: u32,
}

/// One logged-in player.
pub struct Player {
    pub name: std::string::String,
    pub uuid: Uuid,
    pub x_fp: i64,
    pub y_fp: i64,
    pub z_fp: i64,
    pub x_bits: u64,
    pub y_bits: u64,
    pub z_bits: u64,
    pub yaw_bits: u32,
    pub pitch_bits: u32,
    pub yaw_angle: u8,
    pub pitch_angle: u8,
    pub on_ground: bool,
}

impl Player {
    pub open spec fn wf(&self) -> bool {
        &&& string_fits(self.name@)
        &&& -FP_BOUND <= self.x_fp <= FP_BOUND
        &&& -FP_BOUND <= self.y_fp <= FP_BOUND
        &&& -FP_BOUND <= self.z_fp <= FP_BOUND
    }

    /// A fresh player at the spawn point, with the offline UUID of its name.
    pub fn new(name: std::string::String) -> (r: Self)
        requires
            string_fits(name@),
        ensures
            r.name@ == name@,
            r.uuid.0 == offline_uuid(name@),
            r.x_fp == SPAWN_XZ_FP,
            r.y_fp == SPAWN_Y_FP,
            r.z_fp == SPAWN_XZ_FP,
            r.x_bits == SPAWN_XZ_BITS,
            r.y_bits == SPAWN_Y_BITS,
            r.z_bits == SPAWN_XZ_BITS,
            r.yaw_bits == 0,
            r.pitch_bits == 0,
            r.yaw_angle == 0,
            r.pitch_angle == 0,
            r.on_ground,
            r.wf(),
    {
        let uuid = Uuid::offline(name.clone());
        Player {
            name,
            uuid,
            x_fp: SPAWN_XZ_FP,
            y_fp: SPAWN_Y_FP,
            z_fp: SPAWN_XZ_FP,
            x_bits: SPAWN_XZ_BITS,
            y_bits: SPAWN_Y_BITS,
            z_bits: SPAWN_XZ_BITS,
            yaw_bits: 0,
            pitch_bits: 0,
            yaw_angle: 0,
            pitch_angle: 0,
            on_ground: true,
        }
    }
}

/// The immutable configuration the tick loop works from, built once at
/// startup: the status payload already serialised to JSON, the opaque
/// registry blob, and policy knobs.
pub struct TickConfig {
    pub status_json: std::string::String,
    pub max_players: i32,
    pub view_distance: i32,
    pub registry_codec: Vec<u8>,
    pub hashed_seed: i64,
    pub heightmaps_nbt: Vec<u8>,
    pub wand_nbt: Vec<u8>,
    pub tab_header: std::string::String,
    pub tab_footer: std::string::String,
    pub timeout_ms: u64,
    pub keepalive_interval: u64,
}

impl TickConfig {
    pub open spec fn wf(&self) -> bool {
        &&& string_fits(self.status_json@)
        &&& string_fits(self.tab_header@)
        &&& string_fits(self.tab_footer@)
        &&& 0 <= self.view_distance <= 32
        &&& self.keepalive_interval >= 1
    }
}

/// The whole authoritative state: connections, players, the chunk cache, the
/// teardown marks, the visible online count and the tick counter.
pub struct ServerState {
    pub config: TickConfig,
    pub connections: Vec<(i32, Connection)>,
    pub players: Vec<(i32, Player)>,
    pub chunks: Vec<((i32, i32), Chunk)>,
    pub drop_connections: Vec<i32>,
    pub online: i32,
    pub tick_count: u64,
}

/// Each id appears at most once.
pub open spec fn ids_unique<T>(s: Seq<(i32, T)>) -> bool {
    forall|i: int, j: int| 0 <= i < j < s.len() ==> s[i].0 != s[j].0
}

/// The first position of `id`, or the length if absent.
pub open spec fn find_id<T>(s: Seq<(i32, T)>, id: i32) -> int
    decreases s.len(),
{
    if s.len() == 0 {
        0
    } else if s[0].0 == id {
        0
    } else {
        1 + find_id(s.skip(1), id)
    }
}

/// Whether `id` occurs in the list.
pub open spec fn has_id<T>(s: Seq<(i32, T)>, id: i32) -> bool {
    exists|i: int| 0 <= i < s.len() && s[i].0 == id
}

pub proof fn lemma_find_id<T>(s: Seq<(i32, T)>, id: i32)
    ensures
        0 <= find_id(s, id) <= s.len(),
        has_id(s, id) ==> find_id(s, id) < s.len() && s[find_id(s, id)].0 == id,
        !has_id(s, id) ==> find_id(s, id) == s.len(),
        forall|i: int| 0 <= i < find_id(s, id) ==> s[i].0 != id,
    decreases s.len(),
{
    if s.len() > 0 && s[0].0 != id {
        lemma_find_id(s.skip(1), id);
        assert(forall|i: int| 0 <= i < s.skip(1).len() ==> s.skip(1)[i] == s[i + 1]);
        if has_id(s, id) {
            let w = choose|i: int| 0 <= i < s.len() && s[i].0 == id;
            assert(s.skip(1)[w - 1].0 == id);
        }
        if has_id(s.skip(1), id) {
            let w = choose|i: int| 0 <= i < s.skip(1).len() && s.skip(1)[i].0 == id;
            assert(s[w + 1].0 == id);
        }
        assert forall|i: int| 0 <= i < find_id(s, id) implies s[i].0 != id by {
            if i > 0 {
                assert(s.skip(1)[i - 1].0 != id);
            }
        }
    }
}

impl ServerState {
    pub open spec fn wf(&self) -> bool {
        &&& self.config.wf()
        &&& ids_unique(self.connections@)
        &&& ids_unique(self.players@)
        &&& forall|i: int| 0 <= i < self.players@.len() ==> (#[trigger] self.players@[i].1).wf()
        &&& forall|i: int|
            0 <= i < self.chunks@.len() ==> is_generated_chunk(#[trigger] self.chunks@[i].1)
        &&& 0 <= self.online
    }

    /// A fresh server with no connections, no players, an empty cache.
    pub fn new(config: TickConfig) -> (r: Self)
        requires
            config.wf(),
        ensures
            r.wf(),
            r.config == config,
            r.connections@.len() == 0,
            r.players@.len() == 0,
            r.chunks@.len() == 0,
            r.drop_connections@.len() == 0,
            r.online == 0,
            r.tick_count == 0,
    {
        let r = ServerState {
            config,
            connections: Vec::new(),
            players: Vec::new(),
            chunks: Vec::new(),
            drop_connections: Vec::new(),
            online: 0,
            tick_count: 0,
        };
        r
    }
}

/// The ids of every entry except `id`, in order.
pub open spec fn other_ids<T>(s: Seq<(i32, T)>, id: i32) -> Seq<i32>
    decreases s.len(),
{
    if s.len() == 0 {
        Seq::empty()
    } else if s.last().0 == id {
        other_ids(s.drop_last(), id)
    } else {
        other_ids(s.drop_last(), id).push(s.last().0)
    }
}


/// One packet addressed to each id, in order.
pub open spec fn one_to_each(ids: Seq<i32>, p: OutgoingPacket) -> Seq<WrappedOutgoingPacket> {
    ids.map_values(|id: i32| WrappedOutgoingPacket { conn_id: id, packet: p })
}

/// Two packets addressed to each id, in order.
pub open spec fn two_to_each(ids: Seq<i32>, p1: OutgoingPacket, p2: OutgoingPacket) -> Seq<
    WrappedOutgoingPacket,
>
    decreases ids.len(),
{
    if ids.len() == 0 {
        Seq::empty()
    } else {
        two_to_each(ids.drop_last(), p1, p2).push(
            WrappedOutgoingPacket { conn_id: ids.last(), packet: p1 },
        ).push(WrappedOutgoingPacket { conn_id: ids.last(), packet: p2 })
    }
}

/// The entries whose id is not `id`, in order.
pub open spec fn remove_id<T>(s: Seq<(i32, T)>, id: i32) -> Seq<(i32, T)>
    decreases s.len(),
{
    if s.len() == 0 {
        Seq::empty()
    } else if s.last().0 == id {
        remove_id(s.drop_last(), id)
    } else {
        remove_id(s.drop_last(), id).push(s.last())
    }
}

proof fn lemma_remove_id_unique<T>(s: Seq<(i32, T)>, id: i32)
    requires
        ids_unique(s),
    ensures
        ids_unique(remove_id(s, id)),
        remove_id(s, id).len() <= s.len(),
        forall|k: int|
            0 <= k < remove_id(s, id).len() ==> s.contains(#[trigger] remove_id(s, id)[k]),
    decreases s.len(),
{
    if s.len() > 0 {
        assert(ids_unique(s.drop_last()));
        lemma_remove_id_unique(s.drop_last(), id);
        assert(forall|k: int|
            0 <= k < s.drop_last().len() ==> s.drop_last()[k] == s[k]);
        assert forall|k: int|
            0 <= k < remove_id(s, id).len() implies s.contains(
            #[trigger] remove_id(s, id)[k],
        ) by {
            if s.last().0 == id || k < remove_id(s, id).len() - 1 {
                assert(s.drop_last().contains(remove_id(s, id)[k]));
                let w = choose|i: int|
                    0 <= i < s.drop_last().len() && s.drop_last()[i] == remove_id(s, id)[k];
                assert(s[w] == remove_id(s, id)[k]);
            } else {
                assert(s[s.len() - 1] == remove_id(s, id)[k]);
            }
        }
        if s.last().0 != id {
            let r = remove_id(s, id);
            assert forall|i: int, j: int| 0 <= i < j < r.len() implies r[i].0 != r[j].0 by {
                if j < r.len() - 1 {
                } else {
                    assert(s.drop_last().contains(remove_id(s.drop_last(), id)[i]));
                    let w = choose|t: int|
                        0 <= t < s.drop_last().len() && s.drop_last()[t] == r[i];
                    assert(s[w].0 != s[s.len() - 1].0);
                }
            }
        }
    }
}

/// Finds the entry with the given id.
fn find_entry<T>(v: &Vec<(i32, T)>, id: i32) -> (r: Option<usize>)
    ensures
        match r {
            Some(idx) => idx < v@.len() && v@[idx as int].0 == id && idx == find_id(v@, id)
                && has_id(v@, id),
            None => !has_id(v@, id),
        },
{
    proof {
        lemma_find_id(v@, id);
    }
    let mut i: usize = 0;
    while i < v.len()
        invariant
            i <= v@.len(),
            forall|k: int| 0 <= k < i ==> v@[k].0 != id,
        decreases v@.len() - i,
    {
        if v[i].0 == id {
            proof {
                lemma_find_id(v@, id);
                if find_id(v@, id) < i {
                    assert(v@[find_id(v@, id)].0 == id);
                }
            }
            return Some(i);
        }
        i = i + 1;
    }
    proof {
        if has_id(v@, id) {
            let w = choose|k: int| 0 <= k < v@.len() && v@[k].0 == id;
            assert(false);
        }
    }
    None
}

/// Replaces the entry at `idx`, keeping its id.
fn set_entry<T>(v: &mut Vec<(i32, T)>, idx: usize, id: i32, val: T)
    requires
        idx < old(v)@.len(),
        old(v)@[idx as int].0 == id,
    ensures
        final(v)@ == old(v)@.update(idx as int, (id, val)),
{
    let _ = v.remove(idx);
    v.insert(idx, (id, val));
    proof {
        assert(v@ =~= old(v)@.update(idx as int, (id, val)));
    }
}

/// Looks up the connection for `conn_id`, creating a fresh one if none is
/// registered yet, and returns its position.
pub fn prepare_connection(state: &mut ServerState, conn_id: i32, now: u64) -> (idx: usize)
    requires
        old(state).wf(),
    ensures
        final(state).wf(),
        final(state).config == old(state).config,
        final(state).players == old(state).players,
        final(state).chunks == old(state).chunks,
        final(state).drop_connections == old(state).drop_connections,
        final(state).online == old(state).online,
        final(state).tick_count == old(state).tick_count,
        idx < final(state).connections@.len(),
        final(state).connections@[idx as int].0 == conn_id,
        has_id(old(state).connections@, conn_id) ==> final(state).connections
            == old(state).connections,
        !has_id(old(state).connections@, conn_id) ==> final(state).connections@ == old(
            state,
        ).connections@.push((conn_id, Connection { last_timeout: now, state: ConnectionState::Handshake })),
    {
    match find_entry(&state.connections, conn_id) {
        Some(idx) => idx,
        None => {
            let idx = state.connections.len();
            state.connections.push((conn_id, Connection::new(now)));
            proof {
                assert forall|i: int, j: int|
                    0 <= i < j < state.connections@.len() implies state.connections@[i].0
                    != state.connections@[j].0 by {
                    if j == state.connections@.len() - 1 {
                        assert(!has_id(old(state).connections@, conn_id));
                        assert(old(state).connections@[i].0 != conn_id);
                    }
                }
            }
            idx
        },
    }
}

/// Marks a connection for teardown at the end of the tick.
pub fn mark_drop(state: &mut ServerState, conn_id: i32)
    requires
        old(state).wf(),
    ensures
        final(state).wf(),
        final(state).drop_connections@ == old(state).drop_connections@.push(conn_id),
        final(state).connections == old(state).connections,
        final(state).players == old(state).players,
        final(state).config == old(state).config,
        final(state).chunks == old(state).chunks,
        final(state).online == old(state).online,
        final(state).tick_count == old(state).tick_count,
{
    state.drop_connections.push(conn_id);
}

/// Handles a handshake: moves the connection to the state its `next_state`
/// field selects, or marks it for teardown on a protocol violation.
pub fn handle_handshake(
    state: &mut ServerState,
    idx: usize,
    next_state: i32,
    now: u64,
    state_out: &mut Vec<WrappedConnectionState>,
)
    requires
        old(state).wf(),
        idx < old(state).connections@.len(),
    ensures
        final(state).wf(),
        final(state).config == old(state).config,
        final(state).players == old(state).players,
        final(state).chunks == old(state).chunks,
        final(state).online == old(state).online,
        final(state).tick_count == old(state).tick_count,
        ({
            let id = old(state).connections@[idx as int].0;
            if next_state == 1 || next_state == 2 {
                let st = if next_state == 1 {
                    ConnectionState::Status
                } else {
                    ConnectionState::Login
                };
                &&& final(state).connections@ == old(state).connections@.update(
                    idx as int,
                    (id, Connection { last_timeout: now, state: st }),
                )
                &&& final(state).drop_connections == old(state).drop_connections
                &&& final(state_out)@ == old(state_out)@.push(
                    WrappedConnectionState { conn_id: id, state: st },
                )
            } else {
                &&& final(state).connections == old(state).connections
                &&& final(state).drop_connections@ == old(state).drop_connections@.push(id)
                &&& final(state_out)@ == old(state_out)@
            }
        }),
{
    let id = state.connections[idx].0;
    if next_state == 1 || next_state == 2 {
        let st = if next_state == 1 {
            ConnectionState::Status
        } else {
            ConnectionState::Login
        };
        set_entry(&mut state.connections, idx, id, Connection { last_timeout: now, state: st });
        state_out.push(WrappedConnectionState { conn_id: id, state: st });
        proof {
            assert forall|i: int, j: int|
                0 <= i < j < state.connections@.len() implies state.connections@[i].0
                != state.connections@[j].0 by {
                assert(old(state).connections@[i].0 != old(state).connections@[j].0);
            }
        }
    } else {
        state.drop_connections.push(id);
    }
}

/// Handles a status request: replies with the configured status JSON and
/// refreshes the connection's activity time.
pub fn handle_status_request(
    state: &mut ServerState,
    idx: usize,
    now: u64,
    out: &mut Vec<WrappedOutgoingPacket>,
)
    requires
        old(state).wf(),
        idx < old(state).connections@.len(),
    ensures
        final(state).wf(),
        final(state).config == old(state).config,
        final(state).players == old(state).players,
        final(state).chunks == old(state).chunks,
        final(state).drop_connections == old(state).drop_connections,
        final(state).online == old(state).online,
        final(state).tick_count == old(state).tick_count,
        ({
            let id = old(state).connections@[idx as int].0;
            let oldc = old(state).connections@[idx as int].1;
            &&& final(state).connections@ == old(state).connections@.update(
                idx as int,
                (id, Connection { last_timeout: now, state: oldc.state }),
            )
            &&& final(out)@.len() == old(out)@.len() + 1
            &&& final(out)@.take(old(out)@.len() as int) == old(out)@
            &&& final(out)@.last().conn_id == id
            &&& final(out)@.last().packet is StatusResponse
            &&& final(out)@.last().packet->StatusResponse_json_response@ == old(
                state,
            ).config.status_json@
        }),
{
    let id = state.connections[idx].0;
    let st = state.connections[idx].1.state;
    set_entry(
        &mut state.connections,
        idx,
        id,
        Connection { last_timeout: now, state: st },
    );
    proof {
        assert forall|i: int, j: int|
            0 <= i < j < state.connections@.len() implies state.connections@[i].0
            != state.connections@[j].0 by {
            assert(old(state).connections@[i].0 != old(state).connections@[j].0);
        }
    }
    out.push(
        WrappedOutgoingPacket {
            conn_id: id,
            packet: OutgoingPacket::StatusResponse {
                json_response: state.config.status_json.clone(),
            },
        },
    );
    proof {
        assert(out@.take(old(out)@.len() as int) =~= old(out)@);
    }
}

/// Handles a ping: replies with the same payload and marks the connection
/// for teardown, ending the status exchange.
pub fn handle_ping(
    state: &mut ServerState,
    conn_id: i32,
    payload: i64,
    out: &mut Vec<WrappedOutgoingPacket>,
)
    requires
        old(state).wf(),
    ensures
        final(state).wf(),
        final(state).connections == old(state).connections,
        final(state).players == old(state).players,
        final(state).config == old(state).config,
        final(state).chunks == old(state).chunks,
        final(state).online == old(state).online,
        final(state).tick_count == old(state).tick_count,
        final(state).drop_connections@ == old(state).drop_connections@.push(conn_id),
        final(out)@.len() == old(out)@.len() + 1,
        final(out)@.take(old(out)@.len() as int) == old(out)@,
        final(out)@.last().conn_id == conn_id,
        final(out)@.last().packet == (OutgoingPacket::PingResponse { payload }),
{
    out.push(
        WrappedOutgoingPacket { conn_id, packet: OutgoingPacket::PingResponse { payload } },
    );
    state.drop_connections.push(conn_id);
    proof {
        assert(out@.take(old(out)@.len() as int) =~= old(out)@);
    }
}

/// Handles a keep-alive reply: refreshes the connection's activity time.
pub fn handle_keepalive(state: &mut ServerState, idx: usize, now: u64)
    requires
        old(state).wf(),
        idx < old(state).connections@.len(),
    ensures
        final(state).wf(),
        final(state).config == old(state).config,
        final(state).players == old(state).players,
        final(state).chunks == old(state).chunks,
        final(state).drop_connections == old(state).drop_connections,
        final(state).online == old(state).online,
        final(state).tick_count == old(state).tick_count,
        final(state).connections@ == old(state).connections@.update(
            idx as int,
            (
                old(state).connections@[idx as int].0,
                Connection {
                    last_timeout: now,
                    state: old(state).connections@[idx as int].1.state,
                },
            ),
        ),
{
    let id = state.connections[idx].0;
    let st = state.connections[idx].1.state;
    set_entry(
        &mut state.connections,
        idx,
        id,
        Connection { last_timeout: now, state: st },
    );
    proof {
        assert forall|i: int, j: int|
            0 <= i < j < state.connections@.len() implies state.connections@[i].0
            != state.connections@[j].0 by {
            assert(old(state).connections@[i].0 != old(state).connections@[j].0);
        }
    }
}


/// Whether three per-tick deltas all fit the signed 16-bit wire range.
pub open spec fn deltas_fit(dx: int, dy: int, dz: int) -> bool {
    -32768 <= dx <= 32767 && -32768 <= dy <= 32767 && -32768 <= dz <= 32767
}

/// Handles an absolute move: stores the new position and broadcasts a delta
/// to every other player, or an absolute teleport where the change does not
/// fit the 16-bit delta range.
pub fn handle_move(
    state: &mut ServerState,
    conn_id: i32,
    x_fp: i64,
    y_fp: i64,
    z_fp: i64,
    x_bits: u64,
    y_bits: u64,
    z_bits: u64,
    on_ground: bool,
    out: &mut Vec<WrappedOutgoingPacket>,
)
    requires
        old(state).wf(),
        -FP_BOUND <= x_fp <= FP_BOUND,
        -FP_BOUND <= y_fp <= FP_BOUND,
        -FP_BOUND <= z_fp <= FP_BOUND,
        has_id(old(state).players@, conn_id),
    ensures
        final(state).wf(),
        final(state).config == old(state).config,
        final(state).connections == old(state).connections,
        final(state).chunks == old(state).chunks,
        final(state).drop_connections == old(state).drop_connections,
        final(state).online == old(state).online,
        final(state).tick_count == old(state).tick_count,
        ({
            let pidx = find_id(old(state).players@, conn_id);
            let oldp = old(state).players@[pidx].1;
            let pkt = if deltas_fit(x_fp - oldp.x_fp, y_fp - oldp.y_fp, z_fp - oldp.z_fp) {
                OutgoingPacket::UpdateEntityPosition {
                    entity_id: conn_id,
                    dx: (x_fp - oldp.x_fp) as i16,
                    dy: (y_fp - oldp.y_fp) as i16,
                    dz: (z_fp - oldp.z_fp) as i16,
                    on_ground: oldp.on_ground,
                }
            } else {
                OutgoingPacket::TeleportEntity {
                    entity_id: conn_id,
                    x_bits,
                    y_bits,
                    z_bits,
                    yaw_angle: oldp.yaw_angle,
                    pitch_angle: oldp.pitch_angle,
                    on_ground: oldp.on_ground,
                }
            };
            &&& final(out)@ == old(out)@ + one_to_each(
                other_ids(old(state).players@, conn_id),
                pkt,
            )
            &&& final(state).players@ == old(state).players@.update(
                pidx,
                (
                    conn_id,
                    Player {
                        x_fp,
                        y_fp,
                        z_fp,
                        x_bits,
                        y_bits,
                        z_bits,
                        on_ground,
                        ..oldp
                    },
                ),
            )
        }),
{
    let pidx = match find_entry(&state.players, conn_id) {
        Some(i) => i,
        None => {
            proof {
                assert(false);
            }
            return ;
        },
    };
    let oldp = &state.players[pidx].1;
    let dx_ok = x_fp - oldp.x_fp >= -32768 && x_fp - oldp.x_fp <= 32767;
    let dy_ok = y_fp - oldp.y_fp >= -32768 && y_fp - oldp.y_fp <= 32767;
    let dz_ok = z_fp - oldp.z_fp >= -32768 && z_fp - oldp.z_fp <= 32767;
    let pkt = if dx_ok && dy_ok && dz_ok {
        OutgoingPacket::UpdateEntityPosition {
            entity_id: conn_id,
            dx: (x_fp - oldp.x_fp) as i16,
            dy: (y_fp - oldp.y_fp) as i16,
            dz: (z_fp - oldp.z_fp) as i16,
            on_ground: oldp.on_ground,
        }
    } else {
        OutgoingPacket::TeleportEntity {
            entity_id: conn_id,
            x_bits,
            y_bits,
            z_bits,
            yaw_angle: oldp.yaw_angle,
            pitch_angle: oldp.pitch_angle,
            on_ground: oldp.on_ground,
        }
    };
    broadcast_one(&state.players, conn_id, &pkt, out);
    let entry = state.players.remove(pidx);
    let id = entry.0;
    let mut p = entry.1;
    p.x_fp = x_fp;
    p.y_fp = y_fp;
    p.z_fp = z_fp;
    p.x_bits = x_bits;
    p.y_bits = y_bits;
    p.z_bits = z_bits;
    p.on_ground = on_ground;
    state.players.insert(pidx, (id, p));
    proof {
        let oldp2 = old(state).players@[pidx as int].1;
        assert(state.players@ =~= old(state).players@.update(
            pidx as int,
            (
                conn_id,
                Player { x_fp, y_fp, z_fp, x_bits, y_bits, z_bits, on_ground, ..oldp2 },
            ),
        ));
        assert forall|i: int, j: int|
            0 <= i < j < state.players@.len() implies state.players@[i].0 != state.players@[j].0 by {
            assert(old(state).players@[i].0 != old(state).players@[j].0);
        }
    }
}

/// Whether a packet holds only plainly copyable fields.
pub open spec fn plain_packet(p: &OutgoingPacket) -> bool {
    ||| p is Disconnect
    ||| p is BundleDelimiter
    ||| p is PingResponse
    ||| p is KeepAlive
    ||| p is UpdateEntityPosition
    ||| p is UpdateEntityPositionAndRotation
    ||| p is UpdateEntityRotation
    ||| p is TeleportEntity
    ||| p is SetHeadRotation
    ||| p is SetCenterChunk
    ||| p is SynchronizePlayerPosition
}

/// A fresh value equal to a plainly copyable packet.
fn copy_packet(p: &OutgoingPacket) -> (r: OutgoingPacket)
    requires
        plain_packet(p),
    ensures
        r == *p,
{
    match p {
        OutgoingPacket::Disconnect => OutgoingPacket::Disconnect,
        OutgoingPacket::BundleDelimiter => OutgoingPacket::BundleDelimiter,
        OutgoingPacket::PingResponse { payload } => OutgoingPacket::PingResponse {
            payload: *payload,
        },
        OutgoingPacket::KeepAlive { keep_alive_id } => OutgoingPacket::KeepAlive {
            keep_alive_id: *keep_alive_id,
        },
        OutgoingPacket::UpdateEntityPosition { entity_id, dx, dy, dz, on_ground } => OutgoingPacket::UpdateEntityPosition {
            entity_id: *entity_id,
            dx: *dx,
            dy: *dy,
            dz: *dz,
            on_ground: *on_ground,
        },
        OutgoingPacket::UpdateEntityPositionAndRotation {
            entity_id,
            dx,
            dy,
            dz,
            yaw_angle,
            pitch_angle,
            on_ground,
        } => OutgoingPacket::UpdateEntityPositionAndRotation {
            entity_id: *entity_id,
            dx: *dx,
            dy: *dy,
            dz: *dz,
            yaw_angle: *yaw_angle,
            pitch_angle: *pitch_angle,
            on_ground: *on_ground,
        },
        OutgoingPacket::UpdateEntityRotation { entity_id, yaw_angle, pitch_angle, on_ground } => OutgoingPacket::UpdateEntityRotation {
            entity_id: *entity_id,
            yaw_angle: *yaw_angle,
            pitch_angle: *pitch_angle,
            on_ground: *on_ground,
        },
        OutgoingPacket::TeleportEntity {
            entity_id,
            x_bits,
            y_bits,
            z_bits,
            yaw_angle,
            pitch_angle,
            on_ground,
        } => OutgoingPacket::TeleportEntity {
            entity_id: *entity_id,
            x_bits: *x_bits,
            y_bits: *y_bits,
            z_bits: *z_bits,
            yaw_angle: *yaw_angle,
            pitch_angle: *pitch_angle,
            on_ground: *on_ground,
        },
        OutgoingPacket::SetHeadRotation { entity_id, head_yaw_angle } => OutgoingPacket::SetHeadRotation {
            entity_id: *entity_id,
            head_yaw_angle: *head_yaw_angle,
        },
        OutgoingPacket::SetCenterChunk { chunk_x, chunk_z } => OutgoingPacket::SetCenterChunk {
            chunk_x: *chunk_x,
            chunk_z: *chunk_z,
        },
        OutgoingPacket::SynchronizePlayerPosition {
            x_bits,
            y_bits,
            z_bits,
            yaw_bits,
            pitch_bits,
            flags,
            teleport_id,
        } => OutgoingPacket::SynchronizePlayerPosition {
            x_bits: *x_bits,
            y_bits: *y_bits,
            z_bits: *z_bits,
            yaw_bits: *yaw_bits,
            pitch_bits: *pitch_bits,
            flags: *flags,
            teleport_id: *teleport_id,
        },
        _ => {
            proof {
                assert(false);
            }
            OutgoingPacket::Disconnect
        },
    }
}

/// Sends one copy of `pkt` to every player but `conn_id`, in player order.
fn broadcast_one(
    players: &Vec<(i32, Player)>,
    conn_id: i32,
    pkt: &OutgoingPacket,
    out: &mut Vec<WrappedOutgoingPacket>,
)
    requires
        plain_packet(pkt),
    ensures
        final(out)@ == old(out)@ + one_to_each(other_ids(players@, conn_id), *pkt),
{
    let ghost pre = out@;
    let mut k: usize = 0;
    proof {
        assert(players@.take(0) =~= Seq::<(i32, Player)>::empty());
        assert(out@ =~= pre + one_to_each(other_ids(players@.take(0), conn_id), *pkt));
    }
    while k < players.len()
        invariant
            k <= players@.len(),
            plain_packet(pkt),
            out@ == pre + one_to_each(other_ids(players@.take(k as int), conn_id), *pkt),
        decreases players@.len() - k,
    {
        proof {
            assert(players@.take(k + 1).drop_last() =~= players@.take(k as int));
            assert(players@.take(k + 1).last() == players@[k as int]);
        }
        let id = players[k].0;
        if id != conn_id {
            out.push(WrappedOutgoingPacket { conn_id: id, packet: copy_packet(pkt) });
        }
        proof {
            assert(out@ =~= pre + one_to_each(other_ids(players@.take(k + 1), conn_id), *pkt));
        }
        k = k + 1;
    }
    proof {
        assert(players@.take(players@.len() as int) =~= players@);
    }
}


/// Sends two packets to every player but `conn_id`, in player order.
fn broadcast_pair(
    players: &Vec<(i32, Player)>,
    conn_id: i32,
    p1: &OutgoingPacket,
    p2: &OutgoingPacket,
    out: &mut Vec<WrappedOutgoingPacket>,
)
    requires
        plain_packet(p1),
        plain_packet(p2),
    ensures
        final(out)@ == old(out)@ + two_to_each(other_ids(players@, conn_id), *p1, *p2),
{
    let ghost pre = out@;
    let mut k: usize = 0;
    proof {
        assert(players@.take(0) =~= Seq::<(i32, Player)>::empty());
        assert(out@ =~= pre + two_to_each(other_ids(players@.take(0), conn_id), *p1, *p2));
    }
    while k < players.len()
        invariant
            k <= players@.len(),
            plain_packet(p1),
            plain_packet(p2),
            out@ == pre + two_to_each(other_ids(players@.take(k as int), conn_id), *p1, *p2),
        decreases players@.len() - k,
    {
        proof {
            assert(players@.take(k + 1).drop_last() =~= players@.take(k as int));
            assert(players@.take(k + 1).last() == players@[k as int]);
        }
        let id = players[k].0;
        let ghost ids = other_ids(players@.take(k as int), conn_id);
        if id != conn_id {
            out.push(WrappedOutgoingPacket { conn_id: id, packet: copy_packet(p1) });
            out.push(WrappedOutgoingPacket { conn_id: id, packet: copy_packet(p2) });
        }
        proof {
            if id != conn_id {
                assert(other_ids(players@.take(k + 1), conn_id) =~= ids.push(id));
                assert(ids.push(id).drop_last() =~= ids);
                assert(ids.push(id).last() == id);
            }
            assert(out@ =~= pre + two_to_each(other_ids(players@.take(k + 1), conn_id), *p1, *p2));
        }
        k = k + 1;
    }
    proof {
        assert(players@.take(players@.len() as int) =~= players@);
    }
}

/// Handles a move-and-look: stores the new position and rotation and
/// broadcasts a delta (or teleport) and a head rotation to every other
/// player. Rotation arrives normalised and already quantised to angle bytes.
pub fn handle_move_rotation(
    state: &mut ServerState,
    conn_id: i32,
    x_fp: i64,
    y_fp: i64,
    z_fp: i64,
    x_bits: u64,
    y_bits: u64,
    z_bits: u64,
    yaw_bits: u32,
    pitch_bits: u32,
    yaw_angle: u8,
    pitch_angle: u8,
    on_ground: bool,
    out: &mut Vec<WrappedOutgoingPacket>,
)
    requires
        old(state).wf(),
        -FP_BOUND <= x_fp <= FP_BOUND,
        -FP_BOUND <= y_fp <= FP_BOUND,
        -FP_BOUND <= z_fp <= FP_BOUND,
        has_id(old(state).players@, conn_id),
    ensures
        final(state).wf(),
        final(state).config == old(state).config,
        final(state).connections == old(state).connections,
        final(state).chunks == old(state).chunks,
        final(state).drop_connections == old(state).drop_connections,
        final(state).online == old(state).online,
        final(state).tick_count == old(state).tick_count,
        ({
            let pidx = find_id(old(state).players@, conn_id);
            let oldp = old(state).players@[pidx].1;
            let pkt = if deltas_fit(x_fp - oldp.x_fp, y_fp - oldp.y_fp, z_fp - oldp.z_fp) {
                OutgoingPacket::UpdateEntityPositionAndRotation {
                    entity_id: conn_id,
                    dx: (x_fp - oldp.x_fp) as i16,
                    dy: (y_fp - oldp.y_fp) as i16,
                    dz: (z_fp - oldp.z_fp) as i16,
                    yaw_angle,
                    pitch_angle,
                    on_ground: oldp.on_ground,
                }
            } else {
                OutgoingPacket::TeleportEntity {
                    entity_id: conn_id,
                    x_bits,
                    y_bits,
                    z_bits,
                    yaw_angle,
                    pitch_angle,
                    on_ground: oldp.on_ground,
                }
            };
            let head = OutgoingPacket::SetHeadRotation {
                entity_id: conn_id,
                head_yaw_angle: yaw_angle,
            };
            &&& final(out)@ == old(out)@ + two_to_each(
                other_ids(old(state).players@, conn_id),
                pkt,
                head,
            )
            &&& final(state).players@ == old(state).players@.update(
                pidx,
                (
                    conn_id,
                    Player {
                        x_fp,
                        y_fp,
                        z_fp,
                        x_bits,
                        y_bits,
                        z_bits,
                        yaw_bits,
                        pitch_bits,
                        yaw_angle,
                        pitch_angle,
                        on_ground,
                        ..oldp
                    },
                ),
            )
        }),
{
    let pidx = match find_entry(&state.players, conn_id) {
        Some(i) => i,
        None => {
            proof {
                assert(false);
            }
            return ;
        },
    };
    let oldp = &state.players[pidx].1;
    let dx_ok = x_fp - oldp.x_fp >= -32768 && x_fp - oldp.x_fp <= 32767;
    let dy_ok = y_fp - oldp.y_fp >= -32768 && y_fp - oldp.y_fp <= 32767;
    let dz_ok = z_fp - oldp.z_fp >= -32768 && z_fp - oldp.z_fp <= 32767;
    let pkt = if dx_ok && dy_ok && dz_ok {
        OutgoingPacket::UpdateEntityPositionAndRotation {
            entity_id: conn_id,
            dx: (x_fp - oldp.x_fp) as i16,
            dy: (y_fp - oldp.y_fp) as i16,
            dz: (z_fp - oldp.z_fp) as i16,
            yaw_angle,
            pitch_angle,
            on_ground: oldp.on_ground,
        }
    } else {
        OutgoingPacket::TeleportEntity {
            entity_id: conn_id,
            x_bits,
            y_bits,
            z_bits,
            yaw_angle,
            pitch_angle,
            on_ground: oldp.on_ground,
        }
    };
    let head = OutgoingPacket::SetHeadRotation { entity_id: conn_id, head_yaw_angle: yaw_angle };
    broadcast_pair(&state.players, conn_id, &pkt, &head, out);
    let entry = state.players.remove(pidx);
    let id = entry.0;
    let mut p = entry.1;
    p.x_fp = x_fp;
    p.y_fp = y_fp;
    p.z_fp = z_fp;
    p.x_bits = x_bits;
    p.y_bits = y_bits;
    p.z_bits = z_bits;
    p.yaw_bits = yaw_bits;
    p.pitch_bits = pitch_bits;
    p.yaw_angle = yaw_angle;
    p.pitch_angle = pitch_angle;
    p.on_ground = on_ground;
    state.players.insert(pidx, (id, p));
    proof {
        let oldp2 = old(state).players@[pidx as int].1;
        assert(state.players@ =~= old(state).players@.update(
            pidx as int,
            (
                conn_id,
                Player {
                    x_fp,
                    y_fp,
                    z_fp,
                    x_bits,
                    y_bits,
                    z_bits,
                    yaw_bits,
                    pitch_bits,
                    yaw_angle,
                    pitch_angle,
                    on_ground,
                    ..oldp2
                },
            ),
        ));
        assert forall|i: int, j: int|
            0 <= i < j < state.players@.len() implies state.players@[i].0 != state.players@[j].0 by {
            assert(old(state).players@[i].0 != old(state).players@[j].0);
        }
    }
}

/// Handles a look-only update: stores the rotation and broadcasts it, with a
/// head rotation, to every other player.
pub fn handle_rotation(
    state: &mut ServerState,
    conn_id: i32,
    yaw_bits: u32,
    pitch_bits: u32,
    yaw_angle: u8,
    pitch_angle: u8,
    on_ground: bool,
    out: &mut Vec<WrappedOutgoingPacket>,
)
    requires
        old(state).wf(),
        has_id(old(state).players@, conn_id),
    ensures
        final(state).wf(),
        final(state).config == old(state).config,
        final(state).connections == old(state).connections,
        final(state).chunks == old(state).chunks,
        final(state).drop_connections == old(state).drop_connections,
        final(state).online == old(state).online,
        final(state).tick_count == old(state).tick_count,
        ({
            let pidx = find_id(old(state).players@, conn_id);
            let oldp = old(state).players@[pidx].1;
            let pkt = OutgoingPacket::UpdateEntityRotation {
                entity_id: conn_id,
                yaw_angle,
                pitch_angle,
                on_ground: oldp.on_ground,
            };
            let head = OutgoingPacket::SetHeadRotation {
                entity_id: conn_id,
                head_yaw_angle: yaw_angle,
            };
            &&& final(out)@ == old(out)@ + two_to_each(
                other_ids(old(state).players@, conn_id),
                pkt,
                head,
            )
            &&& final(state).players@ == old(state).players@.update(
                pidx,
                (
                    conn_id,
                    Player { yaw_bits, pitch_bits, yaw_angle, pitch_angle, on_ground, ..oldp },
                ),
            )
        }),
{
    let pidx = match find_entry(&state.players, conn_id) {
        Some(i) => i,
        None => {
            proof {
                assert(false);
            }
            return ;
        },
    };
    let oldp = &state.players[pidx].1;
    let pkt = OutgoingPacket::UpdateEntityRotation {
        entity_id: conn_id,
        yaw_angle,
        pitch_angle,
        on_ground: oldp.on_ground,
    };
    let head = OutgoingPacket::SetHeadRotation { entity_id: conn_id, head_yaw_angle: yaw_angle };
    broadcast_pair(&state.players, conn_id, &pkt, &head, out);
    let entry = state.players.remove(pidx);
    let id = entry.0;
    let mut p = entry.1;
    p.yaw_bits = yaw_bits;
    p.pitch_bits = pitch_bits;
    p.yaw_angle = yaw_angle;
    p.pitch_angle = pitch_angle;
    p.on_ground = on_ground;
    state.players.insert(pidx, (id, p));
    proof {
        let oldp2 = old(state).players@[pidx as int].1;
        assert(state.players@ =~= old(state).players@.update(
            pidx as int,
            (
                conn_id,
                Player { yaw_bits, pitch_bits, yaw_angle, pitch_angle, on_ground, ..oldp2 },
            ),
        ));
        assert forall|i: int, j: int|
            0 <= i < j < state.players@.len() implies state.players@[i].0 != state.players@[j].0 by {
            assert(old(state).players@[i].0 != old(state).players@[j].0);
        }
    }
}

/// Handles a use-item: hands back a request carrying the player's current
/// position and look bits, so the caller can run the floating-point
/// intersection outside and apply the result through
/// [`apply_use_item_teleport`].
pub fn handle_use_item(
    state: &ServerState,
    conn_id: i32,
    requests: &mut Vec<UseItemRequest>,
)
    requires
        state.wf(),
        has_id(state.players@, conn_id),
    ensures
        ({
            let p = state.players@[find_id(state.players@, conn_id)].1;
            final(requests)@ == old(requests)@.push(
                UseItemRequest {
                    conn_id,
                    x_bits: p.x_bits,
                    y_bits: p.y_bits,
                    z_bits: p.z_bits,
                    yaw_bits: p.yaw_bits,
                    pitch_bits: p.pitch_bits,
                },
            )
        }),
{
    let pidx = match find_entry(&state.players, conn_id) {
        Some(i) => i,
        None => {
            proof {
                assert(false);
            }
            return ;
        },
    };
    let p = &state.players[pidx].1;
    requests.push(
        UseItemRequest {
            conn_id,
            x_bits: p.x_bits,
            y_bits: p.y_bits,
            z_bits: p.z_bits,
            yaw_bits: p.yaw_bits,
            pitch_bits: p.pitch_bits,
        },
    );
}

/// Applies a resolved use-item teleport: stores the landing spot and tells
/// the player where it now stands.
pub fn apply_use_item_teleport(
    state: &mut ServerState,
    conn_id: i32,
    x_fp: i64,
    y_fp: i64,
    z_fp: i64,
    x_bits: u64,
    y_bits: u64,
    z_bits: u64,
    out: &mut Vec<WrappedOutgoingPacket>,
)
    requires
        old(state).wf(),
        -FP_BOUND <= x_fp <= FP_BOUND,
        -FP_BOUND <= y_fp <= FP_BOUND,
        -FP_BOUND <= z_fp <= FP_BOUND,
        has_id(old(state).players@, conn_id),
    ensures
        final(state).wf(),
        final(state).config == old(state).config,
        final(state).connections == old(state).connections,
        final(state).chunks == old(state).chunks,
        final(state).drop_connections == old(state).drop_connections,
        final(state).online == old(state).online,
        final(state).tick_count == old(state).tick_count,
        ({
            let pidx = find_id(old(state).players@, conn_id);
            let oldp = old(state).players@[pidx].1;
            &&& final(state).players@ == old(state).players@.update(
                pidx,
                (conn_id, Player { x_fp, y_fp, z_fp, x_bits, y_bits, z_bits, ..oldp }),
            )
            &&& final(out)@ == old(out)@.push(
                WrappedOutgoingPacket {
                    conn_id,
                    packet: OutgoingPacket::SynchronizePlayerPosition {
                        x_bits,
                        y_bits,
                        z_bits,
                        yaw_bits: oldp.yaw_bits,
                        pitch_bits: oldp.pitch_bits,
                        flags: 0,
                        teleport_id: 0,
                    },
                },
            )
        }),
{
    let pidx = match find_entry(&state.players, conn_id) {
        Some(i) => i,
        None => {
            proof {
                assert(false);
            }
            return ;
        },
    };
    let entry = state.players.remove(pidx);
    let id = entry.0;
    let mut p = entry.1;
    out.push(
        WrappedOutgoingPacket {
            conn_id,
            packet: OutgoingPacket::SynchronizePlayerPosition {
                x_bits,
                y_bits,
                z_bits,
                yaw_bits: p.yaw_bits,
                pitch_bits: p.pitch_bits,
                flags: 0,
                teleport_id: 0,
            },
        },
    );
    p.x_fp = x_fp;
    p.y_fp = y_fp;
    p.z_fp = z_fp;
    p.x_bits = x_bits;
    p.y_bits = y_bits;
    p.z_bits = z_bits;
    state.players.insert(pidx, (id, p));
    proof {
        let oldp2 = old(state).players@[pidx as int].1;
        assert(state.players@ =~= old(state).players@.update(
            pidx as int,
            (conn_id, Player { x_fp, y_fp, z_fp, x_bits, y_bits, z_bits, ..oldp2 }),
        ));
        assert forall|i: int, j: int|
            0 <= i < j < state.players@.len() implies state.players@[i].0 != state.players@[j].0 by {
            assert(old(state).players@[i].0 != old(state).players@[j].0);
        }
    }
}


/// A fresh byte vector with the same contents.
fn clone_bytes(v: &Vec<u8>) -> (r: Vec<u8>)
    ensures
        r@ == v@,
{
    let mut r: Vec<u8> = Vec::new();
    let mut i: usize = 0;
    while i < v.len()
        invariant
            i <= v@.len(),
            r@ == v@.take(i as int),
        decreases v@.len() - i,
    {
        r.push(v[i]);
        proof {
            assert(r@ =~= v@.take(i + 1));
        }
        i = i + 1;
    }
    proof {
        assert(v@.take(v@.len() as int) =~= v@);
    }
    r
}

/// Whether a packet is the chunk-data packet for column `(x, z)` of the
/// generated world, addressed to `to`.
pub open spec fn is_chunk_packet(p: WrappedOutgoingPacket, to: i32, x: int, z: int) -> bool {
    &&& p.conn_id == to
    &&& p.packet is ChunkDataAndUpdateLight
    &&& p.packet->ChunkDataAndUpdateLight_chunk_x == x
    &&& p.packet->ChunkDataAndUpdateLight_chunk_z == z
    &&& is_generated_chunk(p.packet->ChunkDataAndUpdateLight_data)
}

/// Whether a packet announces the presence of player `pl` (with id `pid`)
/// to `to`: a spawn with the player's position and look.
pub open spec fn is_spawn_packet(p: WrappedOutgoingPacket, to: i32, pid: i32, pl: Player) -> bool {
    p == (WrappedOutgoingPacket {
        conn_id: to,
        packet: OutgoingPacket::SpawnPlayer {
            entity_id: pid,
            player_uuid: pl.uuid,
            x_bits: pl.x_bits,
            y_bits: pl.y_bits,
            z_bits: pl.z_bits,
            yaw_angle: pl.yaw_angle,
            pitch_angle: pl.pitch_angle,
        },
    })
}

/// Whether a packet is a single-player tab-list update for `pl` sent to `to`.
pub open spec fn is_single_info_packet(
    p: WrappedOutgoingPacket,
    to: i32,
    pl: Player,
) -> bool {
    &&& p.conn_id == to
    &&& p.packet is PlayerInfoUpdate
    &&& p.packet->PlayerInfoUpdate_actions == 0x09
    &&& p.packet->PlayerInfoUpdate_players@.len() == 1
    &&& p.packet->PlayerInfoUpdate_players@[0].0 == pl.uuid
    &&& info_actions_ok(p.packet->PlayerInfoUpdate_players@[0].1@, pl)
}

/// The two actions every tab-list entry carries: add the player by name with
/// no properties, then mark it listed.
pub open spec fn info_actions_ok(acts: Seq<PlayerInfoUpdateActions>, pl: Player) -> bool {
    &&& acts.len() == 2
    &&& acts[0] is AddPlayer
    &&& acts[0]->AddPlayer_name@ == pl.name@
    &&& acts[0]->AddPlayer_properties@.len() == 0
    &&& acts[1] == (PlayerInfoUpdateActions::UpdateListed { listed: true })
}

/// The tab-list entry for one player.
fn make_info_entry(pid: i32, pl: &Player) -> (r: (Uuid, Vec<PlayerInfoUpdateActions>))
    ensures
        r.0 == pl.uuid,
        info_actions_ok(r.1@, *pl),
{
    let mut acts: Vec<PlayerInfoUpdateActions> = Vec::new();
    acts.push(
        PlayerInfoUpdateActions::AddPlayer { name: pl.name.clone(), properties: Vec::new() },
    );
    acts.push(PlayerInfoUpdateActions::UpdateListed { listed: true });
    (pl.uuid, acts)
}

/// The four packets every bootstrap burst opens with, in place in `s` at
/// `base`: login success, world metadata, centre chunk, spawn point.
pub open spec fn login_header_ok(
    s: Seq<WrappedOutgoingPacket>,
    base: int,
    conn_id: i32,
    name: Seq<char>,
    cfg: TickConfig,
) -> bool {
    &&& s.len() >= base + 4
    &&& s[base].conn_id == conn_id
    &&& s[base].packet is LoginSuccess
    &&& s[base].packet->LoginSuccess_uuid.0 == offline_uuid(name)
    &&& s[base].packet->LoginSuccess_username@ == name
    &&& s[base + 1].conn_id == conn_id
    &&& s[base + 1].packet is LoginPlay
    &&& s[base + 1].packet->LoginPlay_entity_id == conn_id
    &&& s[base + 1].packet->LoginPlay_gamemode == Gamemode::Creative
    &&& s[base + 1].packet->LoginPlay_registry_codec@ == cfg.registry_codec@
    &&& s[base + 1].packet->LoginPlay_hashed_seed == cfg.hashed_seed
    &&& s[base + 1].packet->LoginPlay_max_players == cfg.max_players
    &&& s[base + 1].packet->LoginPlay_view_distance == cfg.view_distance
    &&& s[base + 2] == (WrappedOutgoingPacket {
        conn_id,
        packet: OutgoingPacket::SetCenterChunk { chunk_x: 0, chunk_z: 0 },
    })
    &&& s[base + 3] == (WrappedOutgoingPacket {
        conn_id,
        packet: OutgoingPacket::SetDefaultSpawnPosition {
            location: Position { x: 0, y: 65, z: 0 },
            angle_bits: 0,
        },
    })
}

/// The five-packet announcement block pairing the new player `newp` (on
/// connection `conn_id`) with one existing player `op` (id `oid`).
pub open spec fn login_pair_ok(
    s: Seq<WrappedOutgoingPacket>,
    ob: int,
    conn_id: i32,
    newp: Player,
    oid: i32,
    op: Player,
) -> bool {
    &&& s.len() >= ob + 5
    &&& is_spawn_packet(s[ob], conn_id, oid, op)
    &&& s[ob + 1] == (WrappedOutgoingPacket {
        conn_id,
        packet: OutgoingPacket::SetHeadRotation { entity_id: oid, head_yaw_angle: op.yaw_angle },
    })
    &&& is_single_info_packet(s[ob + 2], oid, newp)
    &&& is_spawn_packet(s[ob + 3], oid, conn_id, newp)
    &&& s[ob + 4] == (WrappedOutgoingPacket {
        conn_id: oid,
        packet: OutgoingPacket::SetHeadRotation { entity_id: conn_id, head_yaw_angle: 0 },
    })
}

/// Handles a login start: registers the player, moves the connection to the
/// play state, and emits the whole bootstrap burst, in order: login success,
/// world metadata, the centre chunk and spawn point, a full view-distance
/// square of chunk columns, the position sync, the complete tab list, the
/// mutual announcements with every other player, and the trailing effect,
/// tab header and hotbar item.
#[verifier::rlimit(100)]
#[verifier::spinoff_prover]
pub fn handle_login(
    state: &mut ServerState,
    idx: usize,
    conn_id: i32,
    name: std::string::String,
    now: u64,
    out: &mut Vec<WrappedOutgoingPacket>,
    state_out: &mut Vec<WrappedConnectionState>,
)
    requires
        old(state).wf(),
        idx < old(state).connections@.len(),
        old(state).connections@[idx as int].0 == conn_id,
        !has_id(old(state).players@, conn_id),
        string_fits(name@),
        old(state).online < 0x7FFFFFFF,
    ensures
        final(state).wf(),
        final(state).config == old(state).config,
        final(state).drop_connections == old(state).drop_connections,
        final(state).tick_count == old(state).tick_count,
        final(state).online == old(state).online + 1,
        final(state).connections@ == old(state).connections@.update(
            idx as int,
            (conn_id, Connection { last_timeout: now, state: ConnectionState::Play }),
        ),
        final(state_out)@ == old(state_out)@.push(
            WrappedConnectionState { conn_id, state: ConnectionState::Play },
        ),
        final(state).players@.len() == old(state).players@.len() + 1,
        final(state).players@.take(old(state).players@.len() as int) == old(state).players@,
        final(state).players@.last().0 == conn_id,
        final(state).players@.last().1.name@ == name@,
        final(state).players@.last().1.uuid.0 == offline_uuid(name@),
        final(state).players@.last().1.x_fp == SPAWN_XZ_FP,
        final(state).players@.last().1.y_fp == SPAWN_Y_FP,
        final(state).players@.last().1.z_fp == SPAWN_XZ_FP,
        ({
            let v = old(state).config.view_distance as int;
            let w = 2 * v + 1;
            let n = old(state).players@.len() as int;
            let base = old(out)@.len() as int;
            let newp = final(state).players@.last().1;
            &&& final(out)@.len() == base + 4 + w * w + 2 + 5 * n + 3
            &&& final(out)@.take(base) == old(out)@
            &&& login_header_ok(final(out)@, base, conn_id, name@, old(state).config)
            &&& (forall|k: int|
                0 <= k < w * w ==> is_chunk_packet(
                    #[trigger] final(out)@[base + 4 + k],
                    conn_id,
                    -v + k / w,
                    -v + k % w,
                ))
            &&& final(out)@[base + 4 + w * w] == (WrappedOutgoingPacket {
                conn_id,
                packet: OutgoingPacket::SynchronizePlayerPosition {
                    x_bits: SPAWN_XZ_BITS,
                    y_bits: SPAWN_Y_BITS,
                    z_bits: SPAWN_XZ_BITS,
                    yaw_bits: 0,
                    pitch_bits: 0,
                    flags: 0,
                    teleport_id: 0,
                },
            })
            &&& final(out)@[base + 5 + w * w].conn_id == conn_id
            &&& final(out)@[base + 5 + w * w].packet is PlayerInfoUpdate
            &&& final(out)@[base + 5 + w * w].packet->PlayerInfoUpdate_actions == 0x09
            &&& final(out)@[base + 5 + w * w].packet->PlayerInfoUpdate_players@.len() == n + 1
            &&& (forall|j: int|
                0 <= j < n + 1 ==> (#[trigger] final(out)@[base + 5 + w
                    * w].packet->PlayerInfoUpdate_players@[j]).0 == final(state).players@[j].1.uuid)
            &&& (forall|k: int|
                0 <= k < n ==> login_pair_ok(
                    final(out)@,
                    base + 6 + w * w + 5 * k,
                    conn_id,
                    newp,
                    old(state).players@[k].0,
                    #[trigger] old(state).players@[k].1,
                ))
            &&& final(out)@[base + 6 + w * w + 5 * n] == (WrappedOutgoingPacket {
                conn_id,
                packet: OutgoingPacket::EntityEffect {
                    entity_id: conn_id,
                    effect_id: 16,
                    amplifier: 0,
                    duration: -1i32,
                    flags: 0x06,
                    factor_codec: None,
                },
            })
            &&& final(out)@[base + 7 + w * w + 5 * n].conn_id == conn_id
            &&& final(out)@[base + 7 + w * w + 5 * n].packet is SetTabListHeaderAndFooter
            &&& final(out)@[base + 7 + w * w + 5 * n].packet->SetTabListHeaderAndFooter_header@
                == old(state).config.tab_header@
            &&& final(out)@[base + 7 + w * w + 5 * n].packet->SetTabListHeaderAndFooter_footer@
                == old(state).config.tab_footer@
            &&& final(out)@[base + 8 + w * w + 5 * n].conn_id == conn_id
            &&& final(out)@[base + 8 + w * w + 5 * n].packet is SetContainerSlot
            &&& final(out)@[base + 8 + w * w + 5 * n].packet->SetContainerSlot_slot == 40
        }),
{
    let ghost n = old(state).players@.len() as int;
    let ghost base = old(out)@.len() as int;
    state.online = state.online + 1;
    set_entry(
        &mut state.connections,
        idx,
        conn_id,
        Connection { last_timeout: now, state: ConnectionState::Play },
    );
    proof {
        assert forall|i: int, j: int|
            0 <= i < j < state.connections@.len() implies state.connections@[i].0
            != state.connections@[j].0 by {
            assert(old(state).connections@[i].0 != old(state).connections@[j].0);
        }
    }
    state_out.push(WrappedConnectionState { conn_id, state: ConnectionState::Play });
    let newp = Player::new(name);
    state.players.push((conn_id, newp));
    proof {
        assert(state.players@.take(n) =~= old(state).players@);
        assert forall|i: int, j: int|
            0 <= i < j < state.players@.len() implies state.players@[i].0 != state.players@[j].0 by {
            if j == state.players@.len() - 1 {
                assert(old(state).players@[i].0 != conn_id);
            } else {
                assert(old(state).players@[i].0 != old(state).players@[j].0);
            }
        }
    }
    let ghost newp_g = state.players@.last().1;
    let ghost cfg = old(state).config;

    let pn = state.players.len();
    let p0 = &state.players[pn - 1].1;
    out.push(
        WrappedOutgoingPacket {
            conn_id,
            packet: OutgoingPacket::LoginSuccess { uuid: p0.uuid, username: p0.name.clone() },
        },
    );
    let mut dimension_names: Vec<std::string::String> = Vec::new();
    dimension_names.push("minecraft:overworld".to_string());
    out.push(
        WrappedOutgoingPacket {
            conn_id,
            packet: OutgoingPacket::LoginPlay {
                entity_id: conn_id,
                is_hardcore: IS_HARDCORE,
                gamemode: Gamemode::Creative,
                previous_gamemode: None,
                dimension_names,
                registry_codec: clone_bytes(&state.config.registry_codec),
                dimension_type: "minecraft:overworld".to_string(),
                dimension_name: "minecraft:overworld".to_string(),
                hashed_seed: state.config.hashed_seed,
                max_players: state.config.max_players,
                view_distance: state.config.view_distance,
                simulation_distance: SIMULATION_DISTANCE,
                reduced_debug_info: REDUCED_DEBUG_INFO,
                enable_respawn_screen: ENABLE_RESPAWN_SCREEN,
                is_debug: IS_DEBUG,
                is_flat: IS_FLAT,
                death_location: None,
                portal_cooldown: 0,
            },
        },
    );
    out.push(
        WrappedOutgoingPacket {
            conn_id,
            packet: OutgoingPacket::SetCenterChunk { chunk_x: 0, chunk_z: 0 },
        },
    );
    out.push(
        WrappedOutgoingPacket {
            conn_id,
            packet: OutgoingPacket::SetDefaultSpawnPosition {
                location: Position { x: 0, y: 65, z: 0 },
                angle_bits: 0,
            },
        },
    );
    proof {
        assert(out@.take(base) =~= old(out)@);
        assert(login_header_ok(out@, base, conn_id, name@, cfg));
    }
    let v = state.config.view_distance;
    proof {
        assert(0 <= v <= 32);
    }
    let w = 2 * v + 1;
    proof {
        assert((w as int) * (w as int) <= 4225) by (nonlinear_arith)
            requires
                1 <= w <= 65,
        ;
    }
    let wsq = (w as usize) * (w as usize);
    let mut k: usize = 0;
    while k < wsq
        invariant
            state.wf(),
            wsq <= 4225,
            state.config == old(state).config,
            cfg == old(state).config,
            v == cfg.view_distance,
            w == 2 * v + 1,
            wsq == (w as int) * (w as int),
            0 <= v <= 32,
            k <= wsq,
            out@.len() == base + 4 + k,
            base == old(out)@.len(),
            out@.take(base) == old(out)@,
            login_header_ok(out@, base, conn_id, name@, cfg),
            forall|t: int|
                0 <= t < k ==> is_chunk_packet(
                    #[trigger] out@[base + 4 + t],
                    conn_id,
                    -(v as int) + t / (w as int),
                    -(v as int) + t % (w as int),
                ),
            state.connections@ == old(state).connections@.update(
                idx as int,
                (conn_id, Connection { last_timeout: now, state: ConnectionState::Play }),
            ),
            state.players@.len() == n + 1,
            n == old(state).players@.len(),
            state.players@.take(n) == old(state).players@,
            state.players@.last().0 == conn_id,
            newp_g == state.players@.last().1,
            pn == state.players@.len(),
            state.online == old(state).online + 1,
            state.drop_connections == old(state).drop_connections,
            state.tick_count == old(state).tick_count,
        decreases wsq - k,
    {
        let x = -v + ((k as i32) / w);
        let z = -v + ((k as i32) % w);
        let chunk = get_chunk(&mut state.chunks, x, z);
        out.push(
            WrappedOutgoingPacket {
                conn_id,
                packet: OutgoingPacket::ChunkDataAndUpdateLight {
                    chunk_x: x,
                    chunk_z: z,
                    heightmaps: clone_bytes(&state.config.heightmaps_nbt),
                    data: chunk,
                    block_entities: Vec::new(),
                    sky_light_mask: Vec::new(),
                    block_light_mask: Vec::new(),
                    empty_sky_light_mask: Vec::new(),
                    empty_block_light_mask: Vec::new(),
                    sky_light_arrays: Vec::new(),
                    block_light_arrays: Vec::new(),
                },
            },
        );
        proof {
            let prev = out@.drop_last();
            assert(out@.take(base) =~= prev.take(base));
            assert(forall|t: int| 0 <= t < prev.len() ==> out@[t] == prev[t]);
            assert(login_header_ok(out@, base, conn_id, name@, cfg));
        }
        k = k + 1;
    }
    let ghost f_chunk = out@;
    out.push(
        WrappedOutgoingPacket {
            conn_id,
            packet: OutgoingPacket::SynchronizePlayerPosition {
                x_bits: SPAWN_XZ_BITS,
                y_bits: SPAWN_Y_BITS,
                z_bits: SPAWN_XZ_BITS,
                yaw_bits: 0,
                pitch_bits: 0,
                flags: 0,
                teleport_id: 0,
            },
        },
    );
    // the complete tab list, one entry per player
    let mut entries: Vec<(Uuid, Vec<PlayerInfoUpdateActions>)> = Vec::new();
    let mut j: usize = 0;
    while j < pn
        invariant
            pn == state.players@.len(),
            j <= pn,
            entries@.len() == j,
            forall|t: int|
                0 <= t < j ==> (#[trigger] entries@[t]).0 == state.players@[t].1.uuid
                    && info_actions_ok(entries@[t].1@, state.players@[t].1),
        decreases pn - j,
    {
        let e = make_info_entry(state.players[j].0, &state.players[j].1);
        entries.push(e);
        j = j + 1;
    }
    let ghost entries_g = entries@;
    out.push(
        WrappedOutgoingPacket {
            conn_id,
            packet: OutgoingPacket::PlayerInfoUpdate { actions: 0x09, players: entries },
        },
    );
    // announce every existing player to the newcomer and the newcomer to them
    let ghost s_mid = out@;
    let nn = pn - 1;
    let mut m: usize = 0;
    while m < nn
        invariant
            state.players@.len() == nn + 1,
            nn == n,
            pn == nn + 1,
            state.players@.take(n) == old(state).players@,
            newp_g == state.players@.last().1,
            newp_g.wf(),
            conn_id == state.players@.last().0,
            m <= nn,
            out@.len() == s_mid.len() + 5 * m,
            out@.take(s_mid.len() as int) == s_mid,
            forall|t: int|
                0 <= t < m ==> login_pair_ok(
                    out@,
                    s_mid.len() + 5 * t,
                    conn_id,
                    newp_g,
                    old(state).players@[t].0,
                    #[trigger] old(state).players@[t].1,
                ),
        decreases nn - m,
    {
        let oid = state.players[m].0;
        let op = &state.players[m].1;
        proof {
            assert(old(state).players@[m as int] == state.players@[m as int]);
        }
        out.push(
            WrappedOutgoingPacket {
                conn_id,
                packet: OutgoingPacket::SpawnPlayer {
                    entity_id: oid,
                    player_uuid: op.uuid,
                    x_bits: op.x_bits,
                    y_bits: op.y_bits,
                    z_bits: op.z_bits,
                    yaw_angle: op.yaw_angle,
                    pitch_angle: op.pitch_angle,
                },
            },
        );
        out.push(
            WrappedOutgoingPacket {
                conn_id,
                packet: OutgoingPacket::SetHeadRotation {
                    entity_id: oid,
                    head_yaw_angle: op.yaw_angle,
                },
            },
        );
        let np = &state.players[pn - 1].1;
        let mut acts: Vec<(Uuid, Vec<PlayerInfoUpdateActions>)> = Vec::new();
        let e = make_info_entry(conn_id, np);
        acts.push(e);
        out.push(
            WrappedOutgoingPacket {
                conn_id: oid,
                packet: OutgoingPacket::PlayerInfoUpdate { actions: 0x09, players: acts },
            },
        );
        out.push(
            WrappedOutgoingPacket {
                conn_id: oid,
                packet: OutgoingPacket::SpawnPlayer {
                    entity_id: conn_id,
                    player_uuid: np.uuid,
                    x_bits: np.x_bits,
                    y_bits: np.y_bits,
                    z_bits: np.z_bits,
                    yaw_angle: np.yaw_angle,
                    pitch_angle: np.pitch_angle,
                },
            },
        );
        out.push(
            WrappedOutgoingPacket {
                conn_id: oid,
                packet: OutgoingPacket::SetHeadRotation {
                    entity_id: conn_id,
                    head_yaw_angle: 0,
                },
            },
        );
        proof {
            assert(out@.take(s_mid.len() as int) =~= s_mid);
        }
        m = m + 1;
    }
    let ghost f0 = out@;
    out.push(
        WrappedOutgoingPacket {
            conn_id,
            packet: OutgoingPacket::EntityEffect {
                entity_id: conn_id,
                effect_id: 16,
                amplifier: 0,
                duration: -1,
                flags: 0x06,
                factor_codec: None,
            },
        },
    );
    out.push(
        WrappedOutgoingPacket {
            conn_id,
            packet: OutgoingPacket::SetTabListHeaderAndFooter {
                header: state.config.tab_header.clone(),
                footer: state.config.tab_footer.clone(),
            },
        },
    );
    out.push(
        WrappedOutgoingPacket {
            conn_id,
            packet: OutgoingPacket::SetContainerSlot {
                window_id: 0,
                state_id: 0,
                slot: 40,
                slot_data: Some((807, 1, clone_bytes(&state.config.wand_nbt))),
            },
        },
    );
    proof {
        let vv = cfg.view_distance as int;
        let ww = 2 * vv + 1;
        assert(wsq == ww * ww);
        assert(forall|i: int| 0 <= i < f0.len() ==> #[trigger] out@[i] == f0[i]);
        assert(forall|i: int| 0 <= i < s_mid.len() ==> #[trigger] f0[i] == s_mid[i]) by {
            assert(forall|i: int|
                0 <= i < s_mid.len() ==> #[trigger] f0[i] == f0.take(s_mid.len() as int)[i]);
        }
        assert(forall|i: int| 0 <= i < f_chunk.len() ==> #[trigger] s_mid[i] == f_chunk[i]);
        assert(forall|i: int| 0 <= i < f_chunk.len() ==> #[trigger] out@[i] == f_chunk[i]);
        assert(out@.len() == base + 4 + ww * ww + 2 + 5 * n + 3);
        assert(out@.take(base) =~= old(out)@);
        assert(login_header_ok(out@, base, conn_id, name@, cfg)) by {
            assert(out@[base] == f_chunk[base]);
            assert(out@[base + 1] == f_chunk[base + 1]);
            assert(out@[base + 2] == f_chunk[base + 2]);
            assert(out@[base + 3] == f_chunk[base + 3]);
        }
        assert forall|k2: int|
            0 <= k2 < ww * ww implies is_chunk_packet(
            #[trigger] out@[base + 4 + k2],
            conn_id,
            -vv + k2 / ww,
            -vv + k2 % ww,
        ) by {
            assert(out@[base + 4 + k2] == f_chunk[base + 4 + k2]);
            assert(is_chunk_packet(f_chunk[base + 4 + k2], conn_id, -vv + k2 / ww, -vv + k2 % ww));
        }
        assert(out@[base + 4 + ww * ww] == s_mid[base + 4 + ww * ww]);
        assert(s_mid[base + 4 + ww * ww] == s_mid[f_chunk.len() as int]);
        assert(out@[base + 5 + ww * ww] == s_mid[s_mid.len() - 1]);
        assert(out@[base + 5 + ww * ww].packet->PlayerInfoUpdate_players@ == entries_g);
        assert forall|k2: int|
            0 <= k2 < n implies login_pair_ok(
            out@,
            base + 6 + ww * ww + 5 * k2,
            conn_id,
            newp_g,
            old(state).players@[k2].0,
            #[trigger] old(state).players@[k2].1,
        ) by {
            let ob = base + 6 + ww * ww + 5 * k2;
            assert(login_pair_ok(f0, ob, conn_id, newp_g, old(state).players@[k2].0, old(
                state,
            ).players@[k2].1));
            assert(out@[ob] == f0[ob]);
            assert(out@[ob + 1] == f0[ob + 1]);
            assert(out@[ob + 2] == f0[ob + 2]);
            assert(out@[ob + 3] == f0[ob + 3]);
            assert(out@[ob + 4] == f0[ob + 4]);
        }
        assert(out@[base + 6 + ww * ww + 5 * n] == f0.push(out@[f0.len() as int])[f0.len() as int]);
    }
}


/// The ids of every connection in the play state, in order.
pub open spec fn play_ids(s: Seq<(i32, Connection)>) -> Seq<i32>
    decreases s.len(),
{
    if s.len() == 0 {
        Seq::empty()
    } else if s.last().1.state == ConnectionState::Play {
        play_ids(s.drop_last()).push(s.last().0)
    } else {
        play_ids(s.drop_last())
    }
}

/// The ids of every connection silent past the timeout, in order.
pub open spec fn timed_out_ids(s: Seq<(i32, Connection)>, now: u64, timeout: u64) -> Seq<i32>
    decreases s.len(),
{
    if s.len() == 0 {
        Seq::empty()
    } else if s.last().1.last_timeout + timeout < now {
        timed_out_ids(s.drop_last(), now, timeout).push(s.last().0)
    } else {
        timed_out_ids(s.drop_last(), now, timeout)
    }
}

/// Sends one keep-alive to every connection in the play state.
pub fn send_keepalives(state: &ServerState, out: &mut Vec<WrappedOutgoingPacket>)
    ensures
        final(out)@ == old(out)@ + one_to_each(
            play_ids(state.connections@),
            OutgoingPacket::KeepAlive { keep_alive_id: 0 },
        ),
{
    let ghost pre = out@;
    let mut k: usize = 0;
    proof {
        assert(state.connections@.take(0) =~= Seq::<(i32, Connection)>::empty());
        assert(out@ =~= pre + one_to_each(
            play_ids(state.connections@.take(0)),
            OutgoingPacket::KeepAlive { keep_alive_id: 0 },
        ));
    }
    while k < state.connections.len()
        invariant
            k <= state.connections@.len(),
            out@ == pre + one_to_each(
                play_ids(state.connections@.take(k as int)),
                OutgoingPacket::KeepAlive { keep_alive_id: 0 },
            ),
        decreases state.connections@.len() - k,
    {
        proof {
            assert(state.connections@.take(k + 1).drop_last() =~= state.connections@.take(
                k as int,
            ));
            assert(state.connections@.take(k + 1).last() == state.connections@[k as int]);
        }
        let entry = &state.connections[k];
        if entry.1.state == ConnectionState::Play {
            out.push(
                WrappedOutgoingPacket {
                    conn_id: entry.0,
                    packet: OutgoingPacket::KeepAlive { keep_alive_id: 0 },
                },
            );
        }
        proof {
            assert(out@ =~= pre + one_to_each(
                play_ids(state.connections@.take(k + 1)),
                OutgoingPacket::KeepAlive { keep_alive_id: 0 },
            ));
        }
        k = k + 1;
    }
    proof {
        assert(state.connections@.take(state.connections@.len() as int) =~= state.connections@);
    }
}

/// Marks every connection silent past the timeout for teardown.
pub fn mark_timeouts(state: &mut ServerState, now: u64)
    requires
        old(state).wf(),
    ensures
        final(state).wf(),
        final(state).connections == old(state).connections,
        final(state).players == old(state).players,
        final(state).config == old(state).config,
        final(state).chunks == old(state).chunks,
        final(state).online == old(state).online,
        final(state).tick_count == old(state).tick_count,
        final(state).drop_connections@ == old(state).drop_connections@ + timed_out_ids(
            old(state).connections@,
            now,
            old(state).config.timeout_ms,
        ),
{
    let timeout = state.config.timeout_ms;
    let ghost pre = state.drop_connections@;
    let ghost conns = state.connections@;
    let mut k: usize = 0;
    proof {
        assert(conns.take(0) =~= Seq::<(i32, Connection)>::empty());
        assert(state.drop_connections@ =~= pre + timed_out_ids(conns.take(0), now, timeout));
    }
    while k < state.connections.len()
        invariant
            state.wf(),
            k <= state.connections@.len(),
            conns == state.connections@,
            timeout == state.config.timeout_ms,
            state.connections == old(state).connections,
            state.players == old(state).players,
            state.config == old(state).config,
            state.chunks == old(state).chunks,
            state.online == old(state).online,
            state.tick_count == old(state).tick_count,
            state.drop_connections@ == pre + timed_out_ids(conns.take(k as int), now, timeout),
        decreases state.connections@.len() - k,
    {
        proof {
            assert(conns.take(k + 1).drop_last() =~= conns.take(k as int));
            assert(conns.take(k + 1).last() == conns[k as int]);
        }
        let entry = &state.connections[k];
        if now > timeout && entry.1.last_timeout < now - timeout {
            let id = entry.0;
            state.drop_connections.push(id);
        }
        proof {
            assert(state.drop_connections@ =~= pre + timed_out_ids(
                conns.take(k + 1),
                now,
                timeout,
            ));
        }
        k = k + 1;
    }
    proof {
        assert(conns.take(conns.len() as int) =~= conns);
    }
}

/// Tears one connection down: tells its reader and writer to stop, removes
/// it, and where it carried a player, removes the player, lowers the online
/// count, and broadcasts the entity removal to everyone left.
pub fn drop_one(
    state: &mut ServerState,
    conn_id: i32,
    out: &mut Vec<WrappedOutgoingPacket>,
    state_out: &mut Vec<WrappedConnectionState>,
)
    requires
        old(state).wf(),
    ensures
        final(state).wf(),
        final(state).config == old(state).config,
        final(state).chunks == old(state).chunks,
        final(state).drop_connections == old(state).drop_connections,
        final(state).tick_count == old(state).tick_count,
        final(state).connections@ == remove_id(old(state).connections@, conn_id),
        final(state).players@ == remove_id(old(state).players@, conn_id),
        final(state).online == (if has_id(old(state).players@, conn_id) && old(state).online > 0 {
            (old(state).online - 1) as i32
        } else {
            old(state).online
        }),
        final(state_out)@ == old(state_out)@.push(
            WrappedConnectionState { conn_id, state: ConnectionState::Disconnect },
        ),
        final(out)@.len() == old(out)@.len() + 1 + other_ids(
            final(state).players@,
            conn_id,
        ).len(),
        final(out)@.len() >= old(out)@.len(),
        forall|i: int| 0 <= i < old(out)@.len() ==> #[trigger] final(out)@[i] == old(out)@[i],
        final(out)@[old(out)@.len() as int] == (WrappedOutgoingPacket {
            conn_id,
            packet: OutgoingPacket::Disconnect,
        }),
        forall|t: int|
            0 <= t < other_ids(final(state).players@, conn_id).len() ==> {
                let e = #[trigger] final(out)@[old(out)@.len() + 1 + t];
                &&& e.conn_id == other_ids(final(state).players@, conn_id)[t]
                &&& e.packet is RemoveEntities
                &&& e.packet->RemoveEntities_entity_ids@ == seq![conn_id]
            },
{
    state_out.push(WrappedConnectionState { conn_id, state: ConnectionState::Disconnect });
    out.push(WrappedOutgoingPacket { conn_id, packet: OutgoingPacket::Disconnect });
    // remove the connection entry
    match find_entry(&state.connections, conn_id) {
        Some(i) => {
            let _ = state.connections.remove(i);
            proof {
                lemma_find_id(old(state).connections@, conn_id);
                assert(state.connections@ =~= remove_id(old(state).connections@, conn_id)) by {
                    lemma_remove_of_unique(old(state).connections@, conn_id, i as int);
                }
            }
        },
        None => {
            proof {
                lemma_remove_absent(state.connections@, conn_id);
            }
        },
    }
    proof {
        lemma_remove_id_unique(old(state).connections@, conn_id);
    }
    // remove the player, if one is registered
    let had = match find_entry(&state.players, conn_id) {
        Some(i) => {
            let _ = state.players.remove(i);
            proof {
                lemma_find_id(old(state).players@, conn_id);
                assert(state.players@ =~= remove_id(old(state).players@, conn_id)) by {
                    lemma_remove_of_unique(old(state).players@, conn_id, i as int);
                }
            }
            true
        },
        None => {
            proof {
                lemma_remove_absent(state.players@, conn_id);
            }
            false
        },
    };
    proof {
        lemma_remove_id_unique(old(state).players@, conn_id);
        assert forall|i: int|
            0 <= i < state.players@.len() implies (#[trigger] state.players@[i].1).wf() by {
            assert(old(state).players@.contains(state.players@[i]));
            let w = choose|t: int|
                0 <= t < old(state).players@.len() && old(state).players@[t] == state.players@[i];
            assert(old(state).players@[w].1.wf());
        }
    }
    if had && state.online > 0 {
        state.online = state.online - 1;
    }
    // tell everyone left that the entity is gone
    let ghost pre = out@;
    let ghost players_now = state.players@;
    let mut k: usize = 0;
    proof {
        assert(players_now.take(0) =~= Seq::<(i32, Player)>::empty());
        assert(out@ =~= pre + Seq::<WrappedOutgoingPacket>::empty());
        assert(other_ids(players_now.take(0), conn_id) =~= Seq::<i32>::empty());
    }
    while k < state.players.len()
        invariant
            k <= state.players@.len(),
            players_now == state.players@,
            out@.len() == pre.len() + other_ids(players_now.take(k as int), conn_id).len(),
            forall|i: int| 0 <= i < pre.len() ==> #[trigger] out@[i] == pre[i],
            forall|t: int|
                0 <= t < other_ids(players_now.take(k as int), conn_id).len() ==> {
                    let e = #[trigger] out@[pre.len() + t];
                    &&& e.conn_id == other_ids(players_now.take(k as int), conn_id)[t]
                    &&& e.packet is RemoveEntities
                    &&& e.packet->RemoveEntities_entity_ids@ == seq![conn_id]
                },
        decreases state.players@.len() - k,
    {
        proof {
            assert(players_now.take(k + 1).drop_last() =~= players_now.take(k as int));
            assert(players_now.take(k + 1).last() == players_now[k as int]);
        }
        let id = state.players[k].0;
        if id != conn_id {
            let mut ids: Vec<i32> = Vec::new();
            ids.push(conn_id);
            proof {
                assert(ids@ =~= seq![conn_id]);
            }
            out.push(
                WrappedOutgoingPacket {
                    conn_id: id,
                    packet: OutgoingPacket::RemoveEntities { entity_ids: ids },
                },
            );
            proof {
                assert(other_ids(players_now.take(k + 1), conn_id) =~= other_ids(
                    players_now.take(k as int),
                    conn_id,
                ).push(id));
            }
        }
        k = k + 1;
    }
    proof {
        assert(players_now.take(players_now.len() as int) =~= players_now);
        assert(out@[old(out)@.len() as int] == pre[pre.len() - 1]);
    }
}

/// Removing by id when `id` sits at the first index `i` of a unique list
/// equals dropping exactly that entry.
proof fn lemma_remove_of_unique<T>(s: Seq<(i32, T)>, id: i32, i: int)
    requires
        ids_unique(s),
        0 <= i < s.len(),
        s[i].0 == id,
        i == find_id(s, id),
    ensures
        remove_id(s, id) == s.remove(i),
    decreases s.len(),
{
    if s.len() > 0 {
        assert(ids_unique(s.drop_last()));
        if s.last().0 == id {
            assert(i == s.len() - 1) by {
                if i < s.len() - 1 {
                    assert(s[i].0 == s[s.len() - 1].0);
                }
            }
            assert(remove_id(s.drop_last(), id) =~= s.drop_last()) by {
                lemma_remove_absent_helper(s.drop_last(), id);
                assert forall|t: int|
                    0 <= t < s.drop_last().len() implies s.drop_last()[t].0 != id by {
                    assert(s[t].0 != s[s.len() - 1].0);
                }
            }
            assert(remove_id(s, id) =~= s.remove(i));
        } else {
            assert(i < s.len() - 1) by {
                lemma_find_id(s, id);
            }
            let dl = s.drop_last();
            assert(dl[i].0 == id);
            assert(i == find_id(dl, id)) by {
                lemma_find_id(dl, id);
                lemma_find_id(s, id);
                assert(dl[i].0 == id);
                if find_id(dl, id) < i {
                    assert(dl[find_id(dl, id)].0 == id);
                    assert(s[find_id(dl, id)].0 == id);
                }
            }
            lemma_remove_of_unique(dl, id, i);
            assert(remove_id(s, id) =~= s.remove(i));
        }
    }
}

/// Removing an id no entry carries changes nothing; stated over unique or
/// plain lists alike.
proof fn lemma_remove_absent<T>(s: Seq<(i32, T)>, id: i32)
    requires
        !has_id(s, id),
    ensures
        remove_id(s, id) == s,
{
    lemma_remove_absent_helper(s, id);
    assert forall|t: int| 0 <= t < s.len() implies s[t].0 != id by {
        if s[t].0 == id {
            assert(has_id(s, id));
        }
    }
    assert(remove_id(s, id) =~= s);
}

proof fn lemma_remove_absent_helper<T>(s: Seq<(i32, T)>, id: i32)
    requires
        forall|t: int| 0 <= t < s.len() ==> s[t].0 != id,
    ensures
        remove_id(s, id) == s,
    decreases s.len(),
{
    if s.len() > 0 {
        assert(forall|t: int| 0 <= t < s.drop_last().len() ==> s.drop_last()[t].0 != id);
        lemma_remove_absent_helper(s.drop_last(), id);
        assert(remove_id(s, id) =~= s);
    }
}

/// No entry with the removed id survives the removal.
proof fn lemma_remove_gone<T>(s: Seq<(i32, T)>, id: i32)
    ensures
        !has_id(remove_id(s, id), id),
    decreases s.len(),
{
    if s.len() > 0 {
        lemma_remove_gone(s.drop_last(), id);
        let r = remove_id(s, id);
        if has_id(r, id) {
            let w = choose|t: int| 0 <= t < r.len() && r[t].0 == id;
            if s.last().0 != id && w == r.len() - 1 {
            } else {
                assert(remove_id(s.drop_last(), id)[w].0 == id);
            }
        }
    }
}

/// An id absent from a list stays absent after any removal.
proof fn lemma_remove_keeps_absent<T>(s: Seq<(i32, T)>, id: i32, id2: i32)
    ensures
        !has_id(s, id) ==> !has_id(remove_id(s, id2), id),
    decreases s.len(),
{
    if s.len() > 0 {
        lemma_remove_keeps_absent(s.drop_last(), id, id2);
        if !has_id(s, id) {
            assert(!has_id(s.drop_last(), id)) by {
                if has_id(s.drop_last(), id) {
                    let w = choose|t: int|
                        0 <= t < s.drop_last().len() && s.drop_last()[t].0 == id;
                    assert(s[w].0 == id);
                }
            }
            let r = remove_id(s, id2);
            if has_id(r, id) {
                let w = choose|t: int| 0 <= t < r.len() && r[t].0 == id;
                if s.last().0 != id2 && w == r.len() - 1 {
                    assert(s[s.len() - 1].0 == id);
                } else {
                    assert(remove_id(s.drop_last(), id2)[w].0 == id);
                }
            }
        }
    }
}

/// Tears down every marked connection, in mark order, clearing the marks.
pub fn run_drops(
    state: &mut ServerState,
    out: &mut Vec<WrappedOutgoingPacket>,
    state_out: &mut Vec<WrappedConnectionState>,
)
    requires
        old(state).wf(),
    ensures
        final(state).wf(),
        final(state).config == old(state).config,
        final(state).chunks == old(state).chunks,
        final(state).tick_count == old(state).tick_count,
        final(state).drop_connections@.len() == 0,
        final(out)@.len() >= old(out)@.len(),
        forall|i: int| 0 <= i < old(out)@.len() ==> #[trigger] final(out)@[i] == old(out)@[i],
        final(state_out)@.len() >= old(state_out)@.len(),
        forall|i: int|
            0 <= i < old(state_out)@.len() ==> #[trigger] final(state_out)@[i] == old(
                state_out,
            )@[i],
        forall|t: int|
            0 <= t < old(state).drop_connections@.len() ==> !has_id(
                final(state).connections@,
                #[trigger] old(state).drop_connections@[t],
            ),
{
    let mut marks: Vec<i32> = Vec::new();
    let mut i: usize = 0;
    while i < state.drop_connections.len()
        invariant
            state == old(state),
            i <= state.drop_connections@.len(),
            marks@ == state.drop_connections@.take(i as int),
        decreases state.drop_connections@.len() - i,
    {
        marks.push(state.drop_connections[i]);
        proof {
            assert(marks@ =~= state.drop_connections@.take(i + 1));
        }
        i = i + 1;
    }
    proof {
        assert(state.drop_connections@.take(state.drop_connections@.len() as int)
            =~= state.drop_connections@);
    }
    state.drop_connections = Vec::new();
    let mut k: usize = 0;
    while k < marks.len()
        invariant
            state.wf(),
            k <= marks@.len(),
            marks@ == old(state).drop_connections@,
            state.config == old(state).config,
            state.chunks == old(state).chunks,
            state.tick_count == old(state).tick_count,
            state.drop_connections@.len() == 0,
            out@.len() >= old(out)@.len(),
            forall|i: int| 0 <= i < old(out)@.len() ==> #[trigger] out@[i] == old(out)@[i],
            state_out@.len() >= old(state_out)@.len(),
            forall|i: int|
                0 <= i < old(state_out)@.len() ==> #[trigger] state_out@[i] == old(
                    state_out,
                )@[i],
            forall|t: int| 0 <= t < k ==> !has_id(state.connections@, #[trigger] marks@[t]),
        decreases marks@.len() - k,
    {
        let ghost conns_before = state.connections@;
        let ghost out_before = out@;
        let ghost sout_before = state_out@;
        drop_one(state, marks[k], out, state_out);
        proof {
            lemma_remove_gone(conns_before, marks@[k as int]);
            assert forall|t: int|
                0 <= t < k + 1 implies !has_id(state.connections@, #[trigger] marks@[t]) by {
                if t < k {
                    lemma_remove_keeps_absent(conns_before, marks@[t], marks@[k as int]);
                }
            }
            assert(forall|i: int|
                0 <= i < old(out)@.len() ==> #[trigger] out@[i] == old(out)@[i]);
            assert(forall|i: int|
                0 <= i < old(state_out)@.len() ==> #[trigger] state_out@[i] == old(
                    state_out,
                )@[i]);
        }
        k = k + 1;
    }
}

/// Runs one tick's bookkeeping: a keep-alive round on schedule, the timeout
/// sweep, the teardown of every marked connection, and the tick count.
pub fn tick(
    state: &mut ServerState,
    now: u64,
    out: &mut Vec<WrappedOutgoingPacket>,
    state_out: &mut Vec<WrappedConnectionState>,
)
    requires
        old(state).wf(),
        old(state).tick_count < 0xFFFFFFFFFFFFFFFF,
    ensures
        final(state).wf(),
        final(state).config == old(state).config,
        final(state).chunks == old(state).chunks,
        final(state).tick_count == old(state).tick_count + 1,
        final(state).drop_connections@.len() == 0,
        final(out)@.len() >= old(out)@.len(),
        forall|i: int| 0 <= i < old(out)@.len() ==> #[trigger] final(out)@[i] == old(out)@[i],
        final(state_out)@.len() >= old(state_out)@.len(),
        forall|i: int|
            0 <= i < old(state_out)@.len() ==> #[trigger] final(state_out)@[i] == old(
                state_out,
            )@[i],
        old(state).tick_count % old(state).config.keepalive_interval == 0 ==> final(out)@.subrange(
            old(out)@.len() as int,
            old(out)@.len() + one_to_each(
                play_ids(old(state).connections@),
                OutgoingPacket::KeepAlive { keep_alive_id: 0 },
            ).len() as int,
        ) == one_to_each(
            play_ids(old(state).connections@),
            OutgoingPacket::KeepAlive { keep_alive_id: 0 },
        ),
        forall|t: int|
            0 <= t < old(state).drop_connections@.len() ==> !has_id(
                final(state).connections@,
                #[trigger] old(state).drop_connections@[t],
            ),
        forall|t: int|
            0 <= t < timed_out_ids(
                old(state).connections@,
                now,
                old(state).config.timeout_ms,
            ).len() ==> !has_id(
                final(state).connections@,
                #[trigger] timed_out_ids(
                    old(state).connections@,
                    now,
                    old(state).config.timeout_ms,
                )[t],
            ),
{
    if state.tick_count % state.config.keepalive_interval == 0 {
        send_keepalives(state, out);
        proof {
            assert(out@.subrange(
                old(out)@.len() as int,
                out@.len() as int,
            ) =~= one_to_each(
                play_ids(old(state).connections@),
                OutgoingPacket::KeepAlive { keep_alive_id: 0 },
            ));
        }
    }
    let ghost out_mid = out@;
    mark_timeouts(state, now);
    let ghost drops = state.drop_connections@;
    run_drops(state, out, state_out);
    proof {
        assert(forall|i: int| 0 <= i < out_mid.len() ==> #[trigger] out@[i] == out_mid[i]);
        let ka = one_to_each(
            play_ids(old(state).connections@),
            OutgoingPacket::KeepAlive { keep_alive_id: 0 },
        );
        if old(state).tick_count % old(state).config.keepalive_interval == 0 {
            assert(out@.subrange(old(out)@.len() as int, old(out)@.len() + ka.len() as int)
                =~= out_mid.subrange(old(out)@.len() as int, old(out)@.len() + ka.len() as int));
        }
        assert forall|t: int|
            0 <= t < old(state).drop_connections@.len() implies !has_id(
            state.connections@,
            #[trigger] old(state).drop_connections@[t],
        ) by {
            assert(drops[t] == old(state).drop_connections@[t]);
        }
        let touts = timed_out_ids(old(state).connections@, now, old(state).config.timeout_ms);
        assert forall|t: int|
            0 <= t < touts.len() implies !has_id(state.connections@, #[trigger] touts[t]) by {
            assert(drops[old(state).drop_connections@.len() + t] == touts[t]);
        }
    }
    state.tick_count = state.tick_count + 1;
}

} // verus!
