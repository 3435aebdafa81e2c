//! Clientbound packets and their wire encodings: each variant's fields in
//! protocol order, the opcode prefixed as a VarInt, the whole framed by its
//! VarInt byte length.
//!
//! Floating-point wire fields are carried as IEEE-754 bit patterns
//! (`*_bits`); angle fields are carried already quantised to the one-byte
//! 1/256-turn wire unit (`*_angle`). Embedded binary-tag blobs (`nbt`,
//! `heightmaps`, `registry_codec`) are opaque, pre-serialised bytes.

use vstd::prelude::*;

use crate::chunk::{spec_chunk_bytes, Chunk};
use crate::gamemode::Gamemode;
use crate::player_info::{action_wf, spec_action_bytes, PlayerInfoUpdateActions};
use crate::position::{position_word, Position};
use crate::reader::{be_bytes, bool_byte, write_be};
use crate::string::{string_bytes, string_fits, WriteString};
use crate::uuid::Uuid;
use crate::varint::{varint_bytes, WriteVarInt};

verus! {

/// One inventory slot: item id, count, and an opaque pre-serialised tag blob.
pub type Slot = Option<(i32, i8, Vec<u8>)>;

/// One clientbound protocol message. `Disconnect` is internal: it tells the
/// writer to close the connection and produces no bytes.
pub enum OutgoingPacket {
    /// This packet is used internally to indicate that the connection should be closed.
    Disconnect,
    /// Packet ID: 0x00 (status)
    StatusResponse { json_response: std::string::String },
    /// Packet ID: 0x00 (login)
    DisconnectLogin { reason: std::string::String },
    /// Packet ID: 0x00 (play)
    BundleDelimiter,
    /// Packet ID: 0x01
    PingResponse { payload: i64 },
    /// Packet ID: 0x02
    LoginSuccess { uuid: Uuid, username: std::string::String },
    /// Packet ID: 0x03
    SpawnPlayer {
        entity_id: i32,
        player_uuid: Uuid,
        x_bits: u64,
        y_bits: u64,
        z_bits: u64,
        yaw_angle: u8,
        pitch_angle: u8,
    },
    /// Packet ID: 0x14
    SetContainerSlot { window_id: u8, state_id: i32, slot: i16, slot_data: Slot },
    /// Packet ID: 0x23
    KeepAlive { keep_alive_id: i64 },
    /// Packet ID: 0x24
    ChunkDataAndUpdateLight {
        chunk_x: i32,
        chunk_z: i32,
        heightmaps: Vec<u8>,
        data: Chunk,
        block_entities: Vec<(u8, u16, i32, Vec<u8>)>,
        sky_light_mask: Vec<i64>,
        block_light_mask: Vec<i64>,
        empty_sky_light_mask: Vec<i64>,
        empty_block_light_mask: Vec<i64>,
        sky_light_arrays: Vec<Vec<u8>>,
        block_light_arrays: Vec<Vec<u8>>,
    },
    /// Packet ID: 0x28
    LoginPlay {
        entity_id: i32,
        is_hardcore: bool,
        gamemode: Gamemode,
        previous_gamemode: Option<Gamemode>,
        dimension_names: Vec<std::string::String>,
        registry_codec: Vec<u8>,
        dimension_type: std::string::String,
        dimension_name: std::string::String,
        hashed_seed: i64,
        max_players: i32,
        view_distance: i32,
        simulation_distance: i32,
        reduced_debug_info: bool,
        enable_respawn_screen: bool,
        is_debug: bool,
        is_flat: bool,
        death_location: Option<(std::string::String, Position)>,
        portal_cooldown: i32,
    },
    /// Packet ID: 0x2B
    UpdateEntityPosition { entity_id: i32, dx: i16, dy: i16, dz: i16, on_ground: bool },
    /// Packet ID: 0x2C
    UpdateEntityPositionAndRotation {
        entity_id: i32,
        dx: i16,
        dy: i16,
        dz: i16,
        yaw_angle: u8,
        pitch_angle: u8,
        on_ground: bool,
    },
    /// Packet ID: 0x2D
    UpdateEntityRotation { entity_id: i32, yaw_angle: u8, pitch_angle: u8, on_ground: bool },
    /// Packet ID: 0x3A
    PlayerInfoUpdate { actions: u8, players: Vec<(Uuid, Vec<PlayerInfoUpdateActions>)> },
    /// Packet ID: 0x3C
    SynchronizePlayerPosition {
        x_bits: u64,
        y_bits: u64,
        z_bits: u64,
        yaw_bits: u32,
        pitch_bits: u32,
        flags: i8,
        teleport_id: i32,
    },
    /// Packet ID: 0x3E
    RemoveEntities { entity_ids: Vec<i32> },
    /// Packet ID: 0x42
    SetHeadRotation { entity_id: i32, head_yaw_angle: u8 },
    /// Packet ID: 0x4E
    SetCenterChunk { chunk_x: i32, chunk_z: i32 },
    /// Packet ID: 0x50
    SetDefaultSpawnPosition { location: Position, angle_bits: u32 },
    /// Packet ID: 0x65
    SetTabListHeaderAndFooter { header: std::string::String, footer: std::string::String },
    /// Packet ID: 0x68
    TeleportEntity {
        entity_id: i32,
        x_bits: u64,
        y_bits: u64,
        z_bits: u64,
        yaw_angle: u8,
        pitch_angle: u8,
        on_ground: bool,
    },
    /// Packet ID: 0x6C
    EntityEffect {
        entity_id: i32,
        effect_id: i32,
        amplifier: u8,
        duration: i32,
        flags: u8,
        factor_codec: Option<Vec<u8>>,
    },
}

/// The wire bytes of an `i64` list, each big-endian.
pub open spec fn i64s_bytes(vs: Seq<i64>) -> Seq<u8>
    decreases vs.len(),
{
    if vs.len() == 0 {
        Seq::empty()
    } else {
        i64s_bytes(vs.drop_last()) + be_bytes((vs.last() as u64) as nat, 8)
    }
}

/// The raw concatenation of byte blocks.
pub open spec fn raw_concat(vs: Seq<Vec<u8>>) -> Seq<u8>
    decreases vs.len(),
{
    if vs.len() == 0 {
        Seq::empty()
    } else {
        raw_concat(vs.drop_last()) + vs.last()@
    }
}

/// The wire bytes of one block entity: packed xz, y, type, tag blob.
pub open spec fn block_entity_bytes(e: (u8, u16, i32, Vec<u8>)) -> Seq<u8> {
    seq![e.0] + be_bytes(e.1 as nat, 2) + varint_bytes(e.2) + e.3@
}

/// The wire bytes of a block-entity list.
pub open spec fn block_entities_bytes(es: Seq<(u8, u16, i32, Vec<u8>)>) -> Seq<u8>
    decreases es.len(),
{
    if es.len() == 0 {
        Seq::empty()
    } else {
        block_entities_bytes(es.drop_last()) + block_entity_bytes(es.last())
    }
}

/// The wire bytes of a string list, each length-prefixed.
pub open spec fn strings_bytes(vs: Seq<std::string::String>) -> Seq<u8>
    decreases vs.len(),
{
    if vs.len() == 0 {
        Seq::empty()
    } else {
        strings_bytes(vs.drop_last()) + string_bytes(vs.last()@)
    }
}

/// The wire bytes of an `i32` list, each a VarInt.
pub open spec fn varint32s_bytes(vs: Seq<i32>) -> Seq<u8>
    decreases vs.len(),
{
    if vs.len() == 0 {
        Seq::empty()
    } else {
        varint32s_bytes(vs.drop_last()) + varint_bytes(vs.last())
    }
}

/// The wire bytes of an action list.
pub open spec fn actions_bytes(vs: Seq<PlayerInfoUpdateActions>) -> Seq<u8>
    decreases vs.len(),
{
    if vs.len() == 0 {
        Seq::empty()
    } else {
        actions_bytes(vs.drop_last()) + spec_action_bytes(vs.last())
    }
}

/// The wire bytes of a player-info entry list: each player's UUID, then all
/// of that player's actions.
pub open spec fn players_bytes(ps: Seq<(Uuid, Vec<PlayerInfoUpdateActions>)>) -> Seq<u8>
    decreases ps.len(),
{
    if ps.len() == 0 {
        Seq::empty()
    } else {
        players_bytes(ps.drop_last()) + (be_bytes(ps.last().0.0 as nat, 16) + actions_bytes(
            ps.last().1@,
        ))
    }
}

/// The wire bytes of one slot: a presence flag, then item id, count and blob.
pub open spec fn slot_bytes(s: Slot) -> Seq<u8> {
    match s {
        Some((id, count, nbt)) => bool_byte(true) + varint_bytes(id) + seq![count as u8] + nbt@,
        None => bool_byte(false),
    }
}

/// The wire opcode of a clientbound packet; the internal `Disconnect` has
/// none and maps to -1.
pub open spec fn spec_out_id(p: &OutgoingPacket) -> i32 {
    match p {
        OutgoingPacket::Disconnect => -1i32,
        OutgoingPacket::StatusResponse { .. } => 0x00,
        OutgoingPacket::DisconnectLogin { .. } => 0x00,
        OutgoingPacket::BundleDelimiter => 0x00,
        OutgoingPacket::PingResponse { .. } => 0x01,
        OutgoingPacket::LoginSuccess { .. } => 0x02,
        OutgoingPacket::SpawnPlayer { .. } => 0x03,
        OutgoingPacket::SetContainerSlot { .. } => 0x14,
        OutgoingPacket::KeepAlive { .. } => 0x23,
        OutgoingPacket::ChunkDataAndUpdateLight { .. } => 0x24,
        OutgoingPacket::LoginPlay { .. } => 0x28,
        OutgoingPacket::UpdateEntityPosition { .. } => 0x2B,
        OutgoingPacket::UpdateEntityPositionAndRotation { .. } => 0x2C,
        OutgoingPacket::UpdateEntityRotation { .. } => 0x2D,
        OutgoingPacket::PlayerInfoUpdate { .. } => 0x3A,
        OutgoingPacket::SynchronizePlayerPosition { .. } => 0x3C,
        OutgoingPacket::RemoveEntities { .. } => 0x3E,
        OutgoingPacket::SetHeadRotation { .. } => 0x42,
        OutgoingPacket::SetCenterChunk { .. } => 0x4E,
        OutgoingPacket::SetDefaultSpawnPosition { .. } => 0x50,
        OutgoingPacket::SetTabListHeaderAndFooter { .. } => 0x65,
        OutgoingPacket::TeleportEntity { .. } => 0x68,
        OutgoingPacket::EntityEffect { .. } => 0x6C,
    }
}

/// The body bytes of a clientbound packet: every field in protocol order.
pub open spec fn spec_out_body(p: &OutgoingPacket) -> Seq<u8> {
    match p {
        OutgoingPacket::Disconnect => Seq::empty(),
        OutgoingPacket::StatusResponse { json_response } => string_bytes(json_response@),
        OutgoingPacket::DisconnectLogin { reason } => string_bytes(reason@),
        OutgoingPacket::BundleDelimiter => Seq::empty(),
        OutgoingPacket::PingResponse { payload } => be_bytes((*payload as u64) as nat, 8),
        OutgoingPacket::LoginSuccess { uuid, username } => be_bytes(uuid.0 as nat, 16)
            + string_bytes(username@) + seq![0u8],
        OutgoingPacket::SpawnPlayer {
            entity_id,
            player_uuid,
            x_bits,
            y_bits,
            z_bits,
            yaw_angle,
            pitch_angle,
        } => varint_bytes(*entity_id) + be_bytes(player_uuid.0 as nat, 16) + be_bytes(
            *x_bits as nat,
            8,
        ) + be_bytes(*y_bits as nat, 8) + be_bytes(*z_bits as nat, 8) + seq![
            *yaw_angle,
            *pitch_angle,
        ],
        OutgoingPacket::SetContainerSlot { window_id, state_id, slot, slot_data } => seq![
            *window_id,
        ] + varint_bytes(*state_id) + be_bytes((*slot as u16) as nat, 2) + slot_bytes(*slot_data),
        OutgoingPacket::KeepAlive { keep_alive_id } => be_bytes((*keep_alive_id as u64) as nat, 8),
        OutgoingPacket::ChunkDataAndUpdateLight {
            chunk_x,
            chunk_z,
            heightmaps,
            data,
            block_entities,
            sky_light_mask,
            block_light_mask,
            empty_sky_light_mask,
            empty_block_light_mask,
            sky_light_arrays,
            block_light_arrays,
        } => be_bytes((*chunk_x as u32) as nat, 4) + be_bytes((*chunk_z as u32) as nat, 4)
            + heightmaps@ + varint_bytes(spec_chunk_bytes(*data).len() as i32) + spec_chunk_bytes(
            *data,
        ) + varint_bytes(block_entities@.len() as i32) + block_entities_bytes(block_entities@)
            + varint_bytes(sky_light_mask@.len() as i32) + i64s_bytes(sky_light_mask@)
            + varint_bytes(block_light_mask@.len() as i32) + i64s_bytes(block_light_mask@)
            + varint_bytes(empty_sky_light_mask@.len() as i32) + i64s_bytes(empty_sky_light_mask@)
            + varint_bytes(empty_block_light_mask@.len() as i32) + i64s_bytes(
            empty_block_light_mask@,
        ) + varint_bytes(sky_light_arrays@.len() as i32) + raw_concat(sky_light_arrays@)
            + varint_bytes(block_light_arrays@.len() as i32) + raw_concat(block_light_arrays@),
        OutgoingPacket::LoginPlay {
            entity_id,
            is_hardcore,
            gamemode,
            previous_gamemode,
            dimension_names,
            registry_codec,
            dimension_type,
            dimension_name,
            hashed_seed,
            max_players,
            view_distance,
            simulation_distance,
            reduced_debug_info,
            enable_respawn_screen,
            is_debug,
            is_flat,
            death_location,
            portal_cooldown,
        } => be_bytes((*entity_id as u32) as nat, 4) + bool_byte(*is_hardcore) + seq![
            gamemode.spec_byte(),
            match previous_gamemode {
                Some(gm) => gm.spec_byte(),
                None => 255u8,
            },
        ] + varint_bytes(dimension_names@.len() as i32) + strings_bytes(dimension_names@)
            + registry_codec@ + string_bytes(dimension_type@) + string_bytes(dimension_name@)
            + be_bytes((*hashed_seed as u64) as nat, 8) + varint_bytes(*max_players) + varint_bytes(
            *view_distance,
        ) + varint_bytes(*simulation_distance) + seq![
            if *reduced_debug_info {
                1u8
            } else {
                0u8
            },
            if *enable_respawn_screen {
                1u8
            } else {
                0u8
            },
            if *is_debug {
                1u8
            } else {
                0u8
            },
            if *is_flat {
                1u8
            } else {
                0u8
            },
            if death_location is Some {
                1u8
            } else {
                0u8
            },
        ] + (match death_location {
            Some((ddn, dl)) => string_bytes(ddn@) + be_bytes(position_word(*dl) as nat, 8),
            None => Seq::empty(),
        }) + varint_bytes(*portal_cooldown),
        OutgoingPacket::UpdateEntityPosition { entity_id, dx, dy, dz, on_ground } => varint_bytes(
            *entity_id,
        ) + be_bytes((*dx as u16) as nat, 2) + be_bytes((*dy as u16) as nat, 2) + be_bytes(
            (*dz as u16) as nat,
            2,
        ) + bool_byte(*on_ground),
        OutgoingPacket::UpdateEntityPositionAndRotation {
            entity_id,
            dx,
            dy,
            dz,
            yaw_angle,
            pitch_angle,
            on_ground,
        } => varint_bytes(*entity_id) + be_bytes((*dx as u16) as nat, 2) + be_bytes(
            (*dy as u16) as nat,
            2,
        ) + be_bytes((*dz as u16) as nat, 2) + seq![*yaw_angle, *pitch_angle] + bool_byte(
            *on_ground,
        ),
        OutgoingPacket::UpdateEntityRotation { entity_id, yaw_angle, pitch_angle, on_ground } => varint_bytes(
            *entity_id,
        ) + seq![*yaw_angle, *pitch_angle] + bool_byte(*on_ground),
        OutgoingPacket::PlayerInfoUpdate { actions, players } => seq![*actions] + varint_bytes(
            players@.len() as i32,
        ) + players_bytes(players@),
        OutgoingPacket::SynchronizePlayerPosition {
            x_bits,
            y_bits,
            z_bits,
            yaw_bits,
            pitch_bits,
            flags,
            teleport_id,
        } => be_bytes(*x_bits as nat, 8) + be_bytes(*y_bits as nat, 8) + be_bytes(*z_bits as nat, 8)
            + be_bytes(*yaw_bits as nat, 4) + be_bytes(*pitch_bits as nat, 4) + seq![
            (*flags as u8),
        ] + varint_bytes(*teleport_id),
        OutgoingPacket::RemoveEntities { entity_ids } => varint_bytes(entity_ids@.len() as i32)
            + varint32s_bytes(entity_ids@),
        OutgoingPacket::SetHeadRotation { entity_id, head_yaw_angle } => varint_bytes(*entity_id)
            + seq![*head_yaw_angle],
        OutgoingPacket::SetCenterChunk { chunk_x, chunk_z } => varint_bytes(*chunk_x)
            + varint_bytes(*chunk_z),
        OutgoingPacket::SetDefaultSpawnPosition { location, angle_bits } => be_bytes(
            position_word(*location) as nat,
            8,
        ) + be_bytes(*angle_bits as nat, 4),
        OutgoingPacket::SetTabListHeaderAndFooter { header, footer } => string_bytes(header@)
            + string_bytes(footer@),
        OutgoingPacket::TeleportEntity {
            entity_id,
            x_bits,
            y_bits,
            z_bits,
            yaw_angle,
            pitch_angle,
            on_ground,
        } => varint_bytes(*entity_id) + be_bytes(*x_bits as nat, 8) + be_bytes(*y_bits as nat, 8)
            + be_bytes(*z_bits as nat, 8) + seq![*yaw_angle, *pitch_angle] + bool_byte(*on_ground),
        OutgoingPacket::EntityEffect {
            entity_id,
            effect_id,
            amplifier,
            duration,
            flags,
            factor_codec,
        } => varint_bytes(*entity_id) + varint_bytes(*effect_id) + seq![*amplifier] + varint_bytes(
            *duration,
        ) + seq![*flags] + bool_byte(factor_codec is Some) + (match factor_codec {
            Some(fc) => fc@,
            None => Seq::empty(),
        }),
    }
}

/// Whether a clientbound packet's variable-length parts fit their length
/// prefixes, and its chunk payload is well-formed.
pub open spec fn out_wf(p: &OutgoingPacket) -> bool {
    &&& match p {
        OutgoingPacket::StatusResponse { json_response } => string_fits(json_response@),
        OutgoingPacket::DisconnectLogin { reason } => string_fits(reason@),
        OutgoingPacket::LoginSuccess { username, .. } => string_fits(username@),
        OutgoingPacket::ChunkDataAndUpdateLight { data, .. } => data.wf(),
        OutgoingPacket::LoginPlay {
            dimension_names,
            dimension_type,
            dimension_name,
            death_location,
            ..
        } => {
            &&& (forall|i: int|
                0 <= i < dimension_names@.len() ==> string_fits(#[trigger] dimension_names@[i]@))
            &&& string_fits(dimension_type@)
            &&& string_fits(dimension_name@)
            &&& match death_location {
                Some((ddn, _)) => string_fits(ddn@),
                None => true,
            }
        },
        OutgoingPacket::PlayerInfoUpdate { players, .. } => forall|i: int, j: int|
            0 <= i < players@.len() && 0 <= j < players@[i].1@.len() ==> action_wf(
                #[trigger] players@[i].1@[j],
            ),
        OutgoingPacket::SetTabListHeaderAndFooter { header, footer } => string_fits(header@)
            && string_fits(footer@),
        _ => true,
    }
}


/// Appends each value as eight big-endian bytes.
fn write_i64s(r: &mut Vec<u8>, vs: &Vec<i64>)
    ensures
        final(r)@ == old(r)@ + i64s_bytes(vs@),
{
    let ghost pre = r@;
    let mut k: usize = 0;
    proof {
        assert(vs@.take(0) =~= Seq::<i64>::empty());
        assert(r@ =~= pre + i64s_bytes(vs@.take(0)));
    }
    while k < vs.len()
        invariant
            k <= vs@.len(),
            r@ == pre + i64s_bytes(vs@.take(k as int)),
        decreases vs@.len() - k,
    {
        proof {
            assert(vs@.take(k + 1).drop_last() =~= vs@.take(k as int));
            assert(vs@.take(k + 1).last() == vs@[k as int]);
        }
        write_be(r, (vs[k] as u64) as u128, 8);
        k = k + 1;
    }
    proof {
        assert(vs@.take(vs@.len() as int) =~= vs@);
    }
}

/// Appends each byte block raw, in order.
fn write_raw(r: &mut Vec<u8>, vs: &Vec<Vec<u8>>)
    ensures
        final(r)@ == old(r)@ + raw_concat(vs@),
{
    let ghost pre = r@;
    let mut k: usize = 0;
    proof {
        assert(vs@.take(0) =~= Seq::<Vec<u8>>::empty());
        assert(r@ =~= pre + raw_concat(vs@.take(0)));
    }
    while k < vs.len()
        invariant
            k <= vs@.len(),
            r@ == pre + raw_concat(vs@.take(k as int)),
        decreases vs@.len() - k,
    {
        proof {
            assert(vs@.take(k + 1).drop_last() =~= vs@.take(k as int));
            assert(vs@.take(k + 1).last() == vs@[k as int]);
        }
        r.extend_from_slice(vs[k].as_slice());
        k = k + 1;
    }
    proof {
        assert(vs@.take(vs@.len() as int) =~= vs@);
    }
}

/// Appends each block entity: packed xz, y, type, blob.
fn write_block_entities(r: &mut Vec<u8>, vs: &Vec<(u8, u16, i32, Vec<u8>)>)
    ensures
        final(r)@ == old(r)@ + block_entities_bytes(vs@),
{
    let ghost pre = r@;
    let mut k: usize = 0;
    proof {
        assert(vs@.take(0) =~= Seq::<(u8, u16, i32, Vec<u8>)>::empty());
        assert(r@ =~= pre + block_entities_bytes(vs@.take(0)));
    }
    while k < vs.len()
        invariant
            k <= vs@.len(),
            r@ == pre + block_entities_bytes(vs@.take(k as int)),
        decreases vs@.len() - k,
    {
        proof {
            assert(vs@.take(k + 1).drop_last() =~= vs@.take(k as int));
            assert(vs@.take(k + 1).last() == vs@[k as int]);
        }
        let e = &vs[k];
        r.push(e.0);
        write_be(r, e.1 as u128, 2);
        r.write_varint(e.2);
        r.extend_from_slice(e.3.as_slice());
        proof {
            assert(r@ =~= pre + block_entities_bytes(vs@.take(k + 1)));
        }
        k = k + 1;
    }
    proof {
        assert(vs@.take(vs@.len() as int) =~= vs@);
    }
}

/// Appends each string, length-prefixed.
fn write_strings(r: &mut Vec<u8>, vs: &Vec<std::string::String>)
    requires
        forall|i: int| 0 <= i < vs@.len() ==> string_fits(#[trigger] vs@[i]@),
    ensures
        final(r)@ == old(r)@ + strings_bytes(vs@),
{
    let ghost pre = r@;
    let mut k: usize = 0;
    proof {
        assert(vs@.take(0) =~= Seq::<std::string::String>::empty());
        assert(r@ =~= pre + strings_bytes(vs@.take(0)));
    }
    while k < vs.len()
        invariant
            k <= vs@.len(),
            forall|i: int| 0 <= i < vs@.len() ==> string_fits(#[trigger] vs@[i]@),
            r@ == pre + strings_bytes(vs@.take(k as int)),
        decreases vs@.len() - k,
    {
        proof {
            assert(vs@.take(k + 1).drop_last() =~= vs@.take(k as int));
            assert(vs@.take(k + 1).last() == vs@[k as int]);
        }
        r.write_string(vs[k].as_str());
        k = k + 1;
    }
    proof {
        assert(vs@.take(vs@.len() as int) =~= vs@);
    }
}

/// Appends each id as a VarInt.
fn write_varint32s(r: &mut Vec<u8>, vs: &Vec<i32>)
    ensures
        final(r)@ == old(r)@ + varint32s_bytes(vs@),
{
    let ghost pre = r@;
    let mut k: usize = 0;
    proof {
        assert(vs@.take(0) =~= Seq::<i32>::empty());
        assert(r@ =~= pre + varint32s_bytes(vs@.take(0)));
    }
    while k < vs.len()
        invariant
            k <= vs@.len(),
            r@ == pre + varint32s_bytes(vs@.take(k as int)),
        decreases vs@.len() - k,
    {
        proof {
            assert(vs@.take(k + 1).drop_last() =~= vs@.take(k as int));
            assert(vs@.take(k + 1).last() == vs@[k as int]);
        }
        r.write_varint(vs[k]);
        k = k + 1;
    }
    proof {
        assert(vs@.take(vs@.len() as int) =~= vs@);
    }
}

/// Appends each player-info entry: UUID, then that player's actions.
fn write_players(r: &mut Vec<u8>, vs: &Vec<(Uuid, Vec<PlayerInfoUpdateActions>)>)
    requires
        forall|i: int, j: int|
            0 <= i < vs@.len() && 0 <= j < vs@[i].1@.len() ==> action_wf(#[trigger] vs@[i].1@[j]),
    ensures
        final(r)@ == old(r)@ + players_bytes(vs@),
{
    let ghost pre = r@;
    let mut k: usize = 0;
    proof {
        assert(vs@.take(0) =~= Seq::<(Uuid, Vec<PlayerInfoUpdateActions>)>::empty());
        assert(r@ =~= pre + players_bytes(vs@.take(0)));
    }
    while k < vs.len()
        invariant
            k <= vs@.len(),
            forall|i: int, j: int|
                0 <= i < vs@.len() && 0 <= j < vs@[i].1@.len() ==> action_wf(
                    #[trigger] vs@[i].1@[j],
                ),
            r@ == pre + players_bytes(vs@.take(k as int)),
        decreases vs@.len() - k,
    {
        proof {
            assert(vs@.take(k + 1).drop_last() =~= vs@.take(k as int));
            assert(vs@.take(k + 1).last() == vs@[k as int]);
        }
        let entry = &vs[k];
        write_be(r, entry.0.0, 16);
        let ghost mid = r@;
        let acts = &entry.1;
        let mut j: usize = 0;
        proof {
            assert(acts@.take(0) =~= Seq::<PlayerInfoUpdateActions>::empty());
            assert(r@ =~= mid + actions_bytes(acts@.take(0)));
        }
        while j < acts.len()
            invariant
                j <= acts@.len(),
                forall|t: int| 0 <= t < acts@.len() ==> action_wf(#[trigger] acts@[t]),
                r@ == mid + actions_bytes(acts@.take(j as int)),
            decreases acts@.len() - j,
        {
            proof {
                assert(acts@.take(j + 1).drop_last() =~= acts@.take(j as int));
                assert(acts@.take(j + 1).last() == acts@[j as int]);
            }
            let ab = acts[j].to_bytes();
            r.extend_from_slice(ab.as_slice());
            j = j + 1;
        }
        proof {
            assert(acts@.take(acts@.len() as int) =~= acts@);
            assert(r@ =~= pre + players_bytes(vs@.take(k + 1)));
        }
        k = k + 1;
    }
    proof {
        assert(vs@.take(vs@.len() as int) =~= vs@);
    }
}

/// Appends one slot: presence flag, then item id, count and blob.
fn write_slot(r: &mut Vec<u8>, s: &Slot)
    ensures
        final(r)@ == old(r)@ + slot_bytes(*s),
{
    match s {
        Some((id, count, nbt)) => {
            r.push(1);
            r.write_varint(*id);
            r.push(*count as u8);
            r.extend_from_slice(nbt.as_slice());
            proof {
                assert(r@ =~= old(r)@ + slot_bytes(*s));
            }
        },
        None => {
            r.push(0);
            proof {
                assert(r@ =~= old(r)@ + slot_bytes(*s));
            }
        },
    }
}

/// The wire opcode of a clientbound packet.
pub fn out_packet_id(p: &OutgoingPacket) -> (r: i32)
    ensures
        r == spec_out_id(p),
{
    match p {
        OutgoingPacket::Disconnect => -1,
        OutgoingPacket::StatusResponse { .. } => 0x00,
        OutgoingPacket::DisconnectLogin { .. } => 0x00,
        OutgoingPacket::BundleDelimiter => 0x00,
        OutgoingPacket::PingResponse { .. } => 0x01,
        OutgoingPacket::LoginSuccess { .. } => 0x02,
        OutgoingPacket::SpawnPlayer { .. } => 0x03,
        OutgoingPacket::SetContainerSlot { .. } => 0x14,
        OutgoingPacket::KeepAlive { .. } => 0x23,
        OutgoingPacket::ChunkDataAndUpdateLight { .. } => 0x24,
        OutgoingPacket::LoginPlay { .. } => 0x28,
        OutgoingPacket::UpdateEntityPosition { .. } => 0x2B,
        OutgoingPacket::UpdateEntityPositionAndRotation { .. } => 0x2C,
        OutgoingPacket::UpdateEntityRotation { .. } => 0x2D,
        OutgoingPacket::PlayerInfoUpdate { .. } => 0x3A,
        OutgoingPacket::SynchronizePlayerPosition { .. } => 0x3C,
        OutgoingPacket::RemoveEntities { .. } => 0x3E,
        OutgoingPacket::SetHeadRotation { .. } => 0x42,
        OutgoingPacket::SetCenterChunk { .. } => 0x4E,
        OutgoingPacket::SetDefaultSpawnPosition { .. } => 0x50,
        OutgoingPacket::SetTabListHeaderAndFooter { .. } => 0x65,
        OutgoingPacket::TeleportEntity { .. } => 0x68,
        OutgoingPacket::EntityEffect { .. } => 0x6C,
    }
}

/// Appends the body of one ChunkDataAndUpdateLight packet.
#[verifier::rlimit(100)]
#[verifier::spinoff_prover]
fn write_body_chunkdataandupdatelight(p: &OutgoingPacket, r: &mut Vec<u8>)
    requires
        out_wf(p),
        p is ChunkDataAndUpdateLight,
    ensures
        final(r)@ == old(r)@ + spec_out_body(p),
{
    match p {
        OutgoingPacket::ChunkDataAndUpdateLight {
            chunk_x,
            chunk_z,
            heightmaps,
            data,
            block_entities,
            sky_light_mask,
            block_light_mask,
            empty_sky_light_mask,
            empty_block_light_mask,
            sky_light_arrays,
            block_light_arrays,
        } => {
            write_be(r, (*chunk_x as u32) as u128, 4);
            proof {
                assert(r@ =~= old(r)@ + (be_bytes((*chunk_x as u32) as nat, 4)));
            }
            write_be(r, (*chunk_z as u32) as u128, 4);
            proof {
                assert(r@ =~= old(r)@ + (be_bytes((*chunk_x as u32) as nat, 4) + be_bytes((*chunk_z as u32) as nat, 4)));
            }
            r.extend_from_slice(heightmaps.as_slice());
            proof {
                assert(r@ =~= old(r)@ + (be_bytes((*chunk_x as u32) as nat, 4) + be_bytes((*chunk_z as u32) as nat, 4) + heightmaps@));
            }
            let cb = data.to_bytes();
            r.write_varint(cb.len() as i32);
            proof {
                assert(r@ =~= old(r)@ + (be_bytes((*chunk_x as u32) as nat, 4) + be_bytes((*chunk_z as u32) as nat, 4) + heightmaps@ + varint_bytes(spec_chunk_bytes(*data).len() as i32)));
            }
            r.extend_from_slice(cb.as_slice());
            proof {
                assert(r@ =~= old(r)@ + (be_bytes((*chunk_x as u32) as nat, 4) + be_bytes((*chunk_z as u32) as nat, 4) + heightmaps@ + varint_bytes(spec_chunk_bytes(*data).len() as i32) + spec_chunk_bytes(*data)));
            }
            r.write_varint(block_entities.len() as i32);
            proof {
                assert(r@ =~= old(r)@ + (be_bytes((*chunk_x as u32) as nat, 4) + be_bytes((*chunk_z as u32) as nat, 4) + heightmaps@ + varint_bytes(spec_chunk_bytes(*data).len() as i32) + spec_chunk_bytes(*data) + varint_bytes(block_entities@.len() as i32)));
            }
            write_block_entities(r, block_entities);
            proof {
                assert(r@ =~= old(r)@ + (be_bytes((*chunk_x as u32) as nat, 4) + be_bytes((*chunk_z as u32) as nat, 4) + heightmaps@ + varint_bytes(spec_chunk_bytes(*data).len() as i32) + spec_chunk_bytes(*data) + varint_bytes(block_entities@.len() as i32) + block_entities_bytes(block_entities@)));
            }
            r.write_varint(sky_light_mask.len() as i32);
            proof {
                assert(r@ =~= old(r)@ + (be_bytes((*chunk_x as u32) as nat, 4) + be_bytes((*chunk_z as u32) as nat, 4) + heightmaps@ + varint_bytes(spec_chunk_bytes(*data).len() as i32) + spec_chunk_bytes(*data) + varint_bytes(block_entities@.len() as i32) + block_entities_bytes(block_entities@) + varint_bytes(sky_light_mask@.len() as i32)));
            }
            write_i64s(r, sky_light_mask);
            proof {
                assert(r@ =~= old(r)@ + (be_bytes((*chunk_x as u32) as nat, 4) + be_bytes((*chunk_z as u32) as nat, 4) + heightmaps@ + varint_bytes(spec_chunk_bytes(*data).len() as i32) + spec_chunk_bytes(*data) + varint_bytes(block_entities@.len() as i32) + block_entities_bytes(block_entities@) + varint_bytes(sky_light_mask@.len() as i32) + i64s_bytes(sky_light_mask@)));
            }
            r.write_varint(block_light_mask.len() as i32);
            proof {
                assert(r@ =~= old(r)@ + (be_bytes((*chunk_x as u32) as nat, 4) + be_bytes((*chunk_z as u32) as nat, 4) + heightmaps@ + varint_bytes(spec_chunk_bytes(*data).len() as i32) + spec_chunk_bytes(*data) + varint_bytes(block_entities@.len() as i32) + block_entities_bytes(block_entities@) + varint_bytes(sky_light_mask@.len() as i32) + i64s_bytes(sky_light_mask@) + varint_bytes(block_light_mask@.len() as i32)));
            }
            write_i64s(r, block_light_mask);
            proof {
                assert(r@ =~= old(r)@ + (be_bytes((*chunk_x as u32) as nat, 4) + be_bytes((*chunk_z as u32) as nat, 4) + heightmaps@ + varint_bytes(spec_chunk_bytes(*data).len() as i32) + spec_chunk_bytes(*data) + varint_bytes(block_entities@.len() as i32) + block_entities_bytes(block_entities@) + varint_bytes(sky_light_mask@.len() as i32) + i64s_bytes(sky_light_mask@) + varint_bytes(block_light_mask@.len() as i32) + i64s_bytes(block_light_mask@)));
            }
            r.write_varint(empty_sky_light_mask.len() as i32);
            proof {
                assert(r@ =~= old(r)@ + (be_bytes((*chunk_x as u32) as nat, 4) + be_bytes((*chunk_z as u32) as nat, 4) + heightmaps@ + varint_bytes(spec_chunk_bytes(*data).len() as i32) + spec_chunk_bytes(*data) + varint_bytes(block_entities@.len() as i32) + block_entities_bytes(block_entities@) + varint_bytes(sky_light_mask@.len() as i32) + i64s_bytes(sky_light_mask@) + varint_bytes(block_light_mask@.len() as i32) + i64s_bytes(block_light_mask@) + varint_bytes(empty_sky_light_mask@.len() as i32)));
            }
            write_i64s(r, empty_sky_light_mask);
            proof {
                assert(r@ =~= old(r)@ + (be_bytes((*chunk_x as u32) as nat, 4) + be_bytes((*chunk_z as u32) as nat, 4) + heightmaps@ + varint_bytes(spec_chunk_bytes(*data).len() as i32) + spec_chunk_bytes(*data) + varint_bytes(block_entities@.len() as i32) + block_entities_bytes(block_entities@) + varint_bytes(sky_light_mask@.len() as i32) + i64s_bytes(sky_light_mask@) + varint_bytes(block_light_mask@.len() as i32) + i64s_bytes(block_light_mask@) + varint_bytes(empty_sky_light_mask@.len() as i32) + i64s_bytes(empty_sky_light_mask@)));
            }
            r.write_varint(empty_block_light_mask.len() as i32);
            proof {
                assert(r@ =~= old(r)@ + (be_bytes((*chunk_x as u32) as nat, 4) + be_bytes((*chunk_z as u32) as nat, 4) + heightmaps@ + varint_bytes(spec_chunk_bytes(*data).len() as i32) + spec_chunk_bytes(*data) + varint_bytes(block_entities@.len() as i32) + block_entities_bytes(block_entities@) + varint_bytes(sky_light_mask@.len() as i32) + i64s_bytes(sky_light_mask@) + varint_bytes(block_light_mask@.len() as i32) + i64s_bytes(block_light_mask@) + varint_bytes(empty_sky_light_mask@.len() as i32) + i64s_bytes(empty_sky_light_mask@) + varint_bytes(empty_block_light_mask@.len() as i32)));
            }
            write_i64s(r, empty_block_light_mask);
            proof {
                assert(r@ =~= old(r)@ + (be_bytes((*chunk_x as u32) as nat, 4) + be_bytes((*chunk_z as u32) as nat, 4) + heightmaps@ + varint_bytes(spec_chunk_bytes(*data).len() as i32) + spec_chunk_bytes(*data) + varint_bytes(block_entities@.len() as i32) + block_entities_bytes(block_entities@) + varint_bytes(sky_light_mask@.len() as i32) + i64s_bytes(sky_light_mask@) + varint_bytes(block_light_mask@.len() as i32) + i64s_bytes(block_light_mask@) + varint_bytes(empty_sky_light_mask@.len() as i32) + i64s_bytes(empty_sky_light_mask@) + varint_bytes(empty_block_light_mask@.len() as i32) + i64s_bytes(empty_block_light_mask@)));
            }
            r.write_varint(sky_light_arrays.len() as i32);
            proof {
                assert(r@ =~= old(r)@ + (be_bytes((*chunk_x as u32) as nat, 4) + be_bytes((*chunk_z as u32) as nat, 4) + heightmaps@ + varint_bytes(spec_chunk_bytes(*data).len() as i32) + spec_chunk_bytes(*data) + varint_bytes(block_entities@.len() as i32) + block_entities_bytes(block_entities@) + varint_bytes(sky_light_mask@.len() as i32) + i64s_bytes(sky_light_mask@) + varint_bytes(block_light_mask@.len() as i32) + i64s_bytes(block_light_mask@) + varint_bytes(empty_sky_light_mask@.len() as i32) + i64s_bytes(empty_sky_light_mask@) + varint_bytes(empty_block_light_mask@.len() as i32) + i64s_bytes(empty_block_light_mask@) + varint_bytes(sky_light_arrays@.len() as i32)));
            }
            write_raw(r, sky_light_arrays);
            proof {
                assert(r@ =~= old(r)@ + (be_bytes((*chunk_x as u32) as nat, 4) + be_bytes((*chunk_z as u32) as nat, 4) + heightmaps@ + varint_bytes(spec_chunk_bytes(*data).len() as i32) + spec_chunk_bytes(*data) + varint_bytes(block_entities@.len() as i32) + block_entities_bytes(block_entities@) + varint_bytes(sky_light_mask@.len() as i32) + i64s_bytes(sky_light_mask@) + varint_bytes(block_light_mask@.len() as i32) + i64s_bytes(block_light_mask@) + varint_bytes(empty_sky_light_mask@.len() as i32) + i64s_bytes(empty_sky_light_mask@) + varint_bytes(empty_block_light_mask@.len() as i32) + i64s_bytes(empty_block_light_mask@) + varint_bytes(sky_light_arrays@.len() as i32) + raw_concat(sky_light_arrays@)));
            }
            r.write_varint(block_light_arrays.len() as i32);
            proof {
                assert(r@ =~= old(r)@ + (be_bytes((*chunk_x as u32) as nat, 4) + be_bytes((*chunk_z as u32) as nat, 4) + heightmaps@ + varint_bytes(spec_chunk_bytes(*data).len() as i32) + spec_chunk_bytes(*data) + varint_bytes(block_entities@.len() as i32) + block_entities_bytes(block_entities@) + varint_bytes(sky_light_mask@.len() as i32) + i64s_bytes(sky_light_mask@) + varint_bytes(block_light_mask@.len() as i32) + i64s_bytes(block_light_mask@) + varint_bytes(empty_sky_light_mask@.len() as i32) + i64s_bytes(empty_sky_light_mask@) + varint_bytes(empty_block_light_mask@.len() as i32) + i64s_bytes(empty_block_light_mask@) + varint_bytes(sky_light_arrays@.len() as i32) + raw_concat(sky_light_arrays@) + varint_bytes(block_light_arrays@.len() as i32)));
            }
            write_raw(r, block_light_arrays);
            proof {
                assert(r@ =~= old(r)@ + (be_bytes((*chunk_x as u32) as nat, 4) + be_bytes((*chunk_z as u32) as nat, 4) + heightmaps@ + varint_bytes(spec_chunk_bytes(*data).len() as i32) + spec_chunk_bytes(*data) + varint_bytes(block_entities@.len() as i32) + block_entities_bytes(block_entities@) + varint_bytes(sky_light_mask@.len() as i32) + i64s_bytes(sky_light_mask@) + varint_bytes(block_light_mask@.len() as i32) + i64s_bytes(block_light_mask@) + varint_bytes(empty_sky_light_mask@.len() as i32) + i64s_bytes(empty_sky_light_mask@) + varint_bytes(empty_block_light_mask@.len() as i32) + i64s_bytes(empty_block_light_mask@) + varint_bytes(sky_light_arrays@.len() as i32) + raw_concat(sky_light_arrays@) + varint_bytes(block_light_arrays@.len() as i32) + raw_concat(block_light_arrays@)));
            }
            proof {
                assert(r@ =~= old(r)@ + spec_out_body(p));
            }
        },
        _ => {
            proof {
                assert(false);
            }
        },
    }
}

/// The leading fields of a login-bootstrap body, through the simulation
/// distance.
pub open spec fn login_head_bytes(p: &OutgoingPacket) -> Seq<u8> {
    match p {
        OutgoingPacket::LoginPlay {
            entity_id,
            is_hardcore,
            gamemode,
            previous_gamemode,
            dimension_names,
            registry_codec,
            dimension_type,
            dimension_name,
            hashed_seed,
            max_players,
            view_distance,
            simulation_distance,
            ..
        } => be_bytes((*entity_id as u32) as nat, 4) + bool_byte(*is_hardcore) + seq![
            gamemode.spec_byte(),
            match previous_gamemode {
                Some(gm) => gm.spec_byte(),
                None => 255u8,
            },
        ] + varint_bytes(dimension_names@.len() as i32) + strings_bytes(dimension_names@)
            + registry_codec@ + string_bytes(dimension_type@) + string_bytes(dimension_name@)
            + be_bytes((*hashed_seed as u64) as nat, 8) + varint_bytes(*max_players) + varint_bytes(
            *view_distance,
        ) + varint_bytes(*simulation_distance),
        _ => Seq::empty(),
    }
}

/// The trailing fields of a login-bootstrap body: the flag block, the death
/// location, the portal cooldown.
pub open spec fn login_tail_bytes(p: &OutgoingPacket) -> Seq<u8> {
    match p {
        OutgoingPacket::LoginPlay {
            reduced_debug_info,
            enable_respawn_screen,
            is_debug,
            is_flat,
            death_location,
            portal_cooldown,
            ..
        } => seq![
            if *reduced_debug_info {
                1u8
            } else {
                0u8
            },
            if *enable_respawn_screen {
                1u8
            } else {
                0u8
            },
            if *is_debug {
                1u8
            } else {
                0u8
            },
            if *is_flat {
                1u8
            } else {
                0u8
            },
            if death_location is Some {
                1u8
            } else {
                0u8
            },
        ] + (match death_location {
            Some((ddn, dl)) => string_bytes(ddn@) + be_bytes(position_word(*dl) as nat, 8),
            None => Seq::empty(),
        }) + varint_bytes(*portal_cooldown),
        _ => Seq::empty(),
    }
}

/// A login-bootstrap body is its head followed by its tail.
proof fn lemma_login_split(p: &OutgoingPacket)
    requires
        p is LoginPlay,
    ensures
        spec_out_body(p) == login_head_bytes(p) + login_tail_bytes(p),
{
    assert(spec_out_body(p) =~= login_head_bytes(p) + login_tail_bytes(p));
}

/// Writes the leading login-bootstrap fields.
#[verifier::rlimit(100)]
#[verifier::spinoff_prover]
fn write_login_head(p: &OutgoingPacket, r: &mut Vec<u8>)
    requires
        out_wf(p),
        p is LoginPlay,
    ensures
        final(r)@ == old(r)@ + login_head_bytes(p),
{
    match p {
        OutgoingPacket::LoginPlay {
            entity_id,
            is_hardcore,
            gamemode,
            previous_gamemode,
            dimension_names,
            registry_codec,
            dimension_type,
            dimension_name,
            hashed_seed,
            max_players,
            view_distance,
            simulation_distance,
            ..
        } => {
            write_be(r, (*entity_id as u32) as u128, 4);
            r.push(
                if *is_hardcore {
                    1
                } else {
                    0
                },
            );
            r.push(gamemode.byte());
            match previous_gamemode {
                Some(gm) => r.push(gm.byte()),
                None => r.push(255),
            }
            proof {
                assert(r@ =~= old(r)@ + (be_bytes((*entity_id as u32) as nat, 4) + bool_byte(
                    *is_hardcore,
                ) + seq![
                    gamemode.spec_byte(),
                    match previous_gamemode {
                        Some(gm) => gm.spec_byte(),
                        None => 255u8,
                    },
                ]));
            }
            r.write_varint(dimension_names.len() as i32);
            write_strings(r, dimension_names);
            r.extend_from_slice(registry_codec.as_slice());
            r.write_string(dimension_type.as_str());
            r.write_string(dimension_name.as_str());
            proof {
                assert(r@ =~= old(r)@ + (be_bytes((*entity_id as u32) as nat, 4) + bool_byte(
                    *is_hardcore,
                ) + seq![
                    gamemode.spec_byte(),
                    match previous_gamemode {
                        Some(gm) => gm.spec_byte(),
                        None => 255u8,
                    },
                ] + varint_bytes(dimension_names@.len() as i32) + strings_bytes(dimension_names@)
                    + registry_codec@ + string_bytes(dimension_type@) + string_bytes(
                    dimension_name@,
                )));
            }
            write_be(r, (*hashed_seed as u64) as u128, 8);
            r.write_varint(*max_players);
            r.write_varint(*view_distance);
            r.write_varint(*simulation_distance);
            proof {
                assert(r@ =~= old(r)@ + login_head_bytes(p));
            }
        },
        _ => {
            proof {
                assert(false);
            }
        },
    }
}

/// Writes the trailing login-bootstrap fields.
#[verifier::rlimit(100)]
#[verifier::spinoff_prover]
fn write_login_tail(p: &OutgoingPacket, r: &mut Vec<u8>)
    requires
        out_wf(p),
        p is LoginPlay,
    ensures
        final(r)@ == old(r)@ + login_tail_bytes(p),
{
    match p {
        OutgoingPacket::LoginPlay {
            reduced_debug_info,
            enable_respawn_screen,
            is_debug,
            is_flat,
            death_location,
            portal_cooldown,
            ..
        } => {
            r.push(
                if *reduced_debug_info {
                    1
                } else {
                    0
                },
            );
            r.push(
                if *enable_respawn_screen {
                    1
                } else {
                    0
                },
            );
            r.push(
                if *is_debug {
                    1
                } else {
                    0
                },
            );
            r.push(
                if *is_flat {
                    1
                } else {
                    0
                },
            );
            let has_death = match death_location {
                Some(_) => true,
                None => false,
            };
            r.push(
                if has_death {
                    1
                } else {
                    0
                },
            );
            match death_location {
                Some((ddn, dl)) => {
                    r.write_string(ddn.as_str());
                    let pb = dl.to_bytes();
                    r.extend_from_slice(pb.as_slice());
                },
                None => {},
            }
            r.write_varint(*portal_cooldown);
            proof {
                assert(r@ =~= old(r)@ + login_tail_bytes(p));
            }
        },
        _ => {
            proof {
                assert(false);
            }
        },
    }
}

/// Appends the body of one LoginPlay packet.
fn write_body_loginplay(p: &OutgoingPacket, r: &mut Vec<u8>)
    requires
        out_wf(p),
        p is LoginPlay,
    ensures
        final(r)@ == old(r)@ + spec_out_body(p),
{
    write_login_head(p, r);
    write_login_tail(p, r);
    proof {
        lemma_login_split(p);
        assert(r@ =~= old(r)@ + (login_head_bytes(p) + login_tail_bytes(p)));
    }
}

/// Appends the body bytes of a clientbound packet, mirroring
/// [`spec_out_body`].
#[verifier::rlimit(100)]
#[verifier::spinoff_prover]
pub fn write_out_body(p: &OutgoingPacket, r: &mut Vec<u8>)
    requires
        out_wf(p),
    ensures
        final(r)@ == old(r)@ + spec_out_body(p),
{
    match p {
        OutgoingPacket::Disconnect => {
            proof {
                assert(r@ =~= old(r)@ + spec_out_body(p));
            }
        },
        OutgoingPacket::StatusResponse { json_response } => {
            r.write_string(json_response.as_str());
        },
        OutgoingPacket::DisconnectLogin { reason } => {
            r.write_string(reason.as_str());
        },
        OutgoingPacket::BundleDelimiter => {
            proof {
                assert(r@ =~= old(r)@ + spec_out_body(p));
            }
        },
        OutgoingPacket::PingResponse { payload } => {
            write_be(r, (*payload as u64) as u128, 8);
        },
        OutgoingPacket::LoginSuccess { uuid, username } => {
            write_be(r, uuid.0, 16);
            r.write_string(username.as_str());
            r.push(0);
            proof {
                assert(r@ =~= old(r)@ + spec_out_body(p));
            }
        },
        OutgoingPacket::SpawnPlayer {
            entity_id,
            player_uuid,
            x_bits,
            y_bits,
            z_bits,
            yaw_angle,
            pitch_angle,
        } => {
            r.write_varint(*entity_id);
            write_be(r, player_uuid.0, 16);
            write_be(r, *x_bits as u128, 8);
            write_be(r, *y_bits as u128, 8);
            write_be(r, *z_bits as u128, 8);
            r.push(*yaw_angle);
            r.push(*pitch_angle);
            proof {
                assert(r@ =~= old(r)@ + spec_out_body(p));
            }
        },
        OutgoingPacket::SetContainerSlot { window_id, state_id, slot, slot_data } => {
            r.push(*window_id);
            r.write_varint(*state_id);
            write_be(r, (*slot as u16) as u128, 2);
            write_slot(r, slot_data);
            proof {
                assert(r@ =~= old(r)@ + spec_out_body(p));
            }
        },
        OutgoingPacket::KeepAlive { keep_alive_id } => {
            write_be(r, (*keep_alive_id as u64) as u128, 8);
        },
        OutgoingPacket::ChunkDataAndUpdateLight { .. } => {
            write_body_chunkdataandupdatelight(p, r);
        },
        OutgoingPacket::LoginPlay { .. } => {
            write_body_loginplay(p, r);
        },
        OutgoingPacket::UpdateEntityPosition { entity_id, dx, dy, dz, on_ground } => {
            r.write_varint(*entity_id);
            write_be(r, (*dx as u16) as u128, 2);
            write_be(r, (*dy as u16) as u128, 2);
            write_be(r, (*dz as u16) as u128, 2);
            r.push(
                if *on_ground {
                    1
                } else {
                    0
                },
            );
            proof {
                assert(r@ =~= old(r)@ + spec_out_body(p));
            }
        },
        OutgoingPacket::UpdateEntityPositionAndRotation {
            entity_id,
            dx,
            dy,
            dz,
            yaw_angle,
            pitch_angle,
            on_ground,
        } => {
            r.write_varint(*entity_id);
            write_be(r, (*dx as u16) as u128, 2);
            write_be(r, (*dy as u16) as u128, 2);
            write_be(r, (*dz as u16) as u128, 2);
            r.push(*yaw_angle);
            r.push(*pitch_angle);
            r.push(
                if *on_ground {
                    1
                } else {
                    0
                },
            );
            proof {
                assert(r@ =~= old(r)@ + spec_out_body(p));
            }
        },
        OutgoingPacket::UpdateEntityRotation { entity_id, yaw_angle, pitch_angle, on_ground } => {
            r.write_varint(*entity_id);
            r.push(*yaw_angle);
            r.push(*pitch_angle);
            r.push(
                if *on_ground {
                    1
                } else {
                    0
                },
            );
            proof {
                assert(r@ =~= old(r)@ + spec_out_body(p));
            }
        },
        OutgoingPacket::PlayerInfoUpdate { actions, players } => {
            r.push(*actions);
            r.write_varint(players.len() as i32);
            write_players(r, players);
            proof {
                assert(r@ =~= old(r)@ + spec_out_body(p));
            }
        },
        OutgoingPacket::SynchronizePlayerPosition {
            x_bits,
            y_bits,
            z_bits,
            yaw_bits,
            pitch_bits,
            flags,
            teleport_id,
        } => {
            write_be(r, *x_bits as u128, 8);
            write_be(r, *y_bits as u128, 8);
            write_be(r, *z_bits as u128, 8);
            write_be(r, *yaw_bits as u128, 4);
            write_be(r, *pitch_bits as u128, 4);
            r.push(*flags as u8);
            r.write_varint(*teleport_id);
            proof {
                assert(r@ =~= old(r)@ + spec_out_body(p));
            }
        },
        OutgoingPacket::RemoveEntities { entity_ids } => {
            r.write_varint(entity_ids.len() as i32);
            write_varint32s(r, entity_ids);
            proof {
                assert(r@ =~= old(r)@ + spec_out_body(p));
            }
        },
        OutgoingPacket::SetHeadRotation { entity_id, head_yaw_angle } => {
            r.write_varint(*entity_id);
            r.push(*head_yaw_angle);
            proof {
                assert(r@ =~= old(r)@ + spec_out_body(p));
            }
        },
        OutgoingPacket::SetCenterChunk { chunk_x, chunk_z } => {
            r.write_varint(*chunk_x);
            r.write_varint(*chunk_z);
            proof {
                assert(r@ =~= old(r)@ + spec_out_body(p));
            }
        },
        OutgoingPacket::SetDefaultSpawnPosition { location, angle_bits } => {
            let pb = location.to_bytes();
            r.extend_from_slice(pb.as_slice());
            write_be(r, *angle_bits as u128, 4);
            proof {
                assert(r@ =~= old(r)@ + spec_out_body(p));
            }
        },
        OutgoingPacket::SetTabListHeaderAndFooter { header, footer } => {
            r.write_string(header.as_str());
            r.write_string(footer.as_str());
            proof {
                assert(r@ =~= old(r)@ + spec_out_body(p));
            }
        },
        OutgoingPacket::TeleportEntity {
            entity_id,
            x_bits,
            y_bits,
            z_bits,
            yaw_angle,
            pitch_angle,
            on_ground,
        } => {
            r.write_varint(*entity_id);
            write_be(r, *x_bits as u128, 8);
            write_be(r, *y_bits as u128, 8);
            write_be(r, *z_bits as u128, 8);
            r.push(*yaw_angle);
            r.push(*pitch_angle);
            r.push(
                if *on_ground {
                    1
                } else {
                    0
                },
            );
            proof {
                assert(r@ =~= old(r)@ + spec_out_body(p));
            }
        },
        OutgoingPacket::EntityEffect {
            entity_id,
            effect_id,
            amplifier,
            duration,
            flags,
            factor_codec,
        } => {
            r.write_varint(*entity_id);
            r.write_varint(*effect_id);
            r.push(*amplifier);
            r.write_varint(*duration);
            r.push(*flags);
            match factor_codec {
                Some(fc) => {
                    r.push(1);
                    r.extend_from_slice(fc.as_slice());
                },
                None => {
                    r.push(0);
                },
            }
            proof {
                assert(r@ =~= old(r)@ + spec_out_body(p));
            }
        },
    }
}

/// The full frame of a clientbound packet: VarInt length, VarInt opcode,
/// body. The internal `Disconnect` yields no bytes at all.
pub open spec fn spec_encode_out(p: &OutgoingPacket) -> Seq<u8> {
    if p is Disconnect {
        Seq::empty()
    } else {
        let body = varint_bytes(spec_out_id(p)) + spec_out_body(p);
        varint_bytes(body.len() as i32) + body
    }
}

/// Encodes one clientbound packet as a full frame.
pub fn encode_packet_out(p: &OutgoingPacket) -> (r: Vec<u8>)
    requires
        out_wf(p),
    ensures
        r@ == spec_encode_out(p),
{
    match p {
        OutgoingPacket::Disconnect => {
            let r: Vec<u8> = Vec::new();
            proof {
                assert(r@ =~= spec_encode_out(p));
            }
            r
        },
        _ => {
            let mut body: Vec<u8> = Vec::new();
            body.write_varint(out_packet_id(p));
            write_out_body(p, &mut body);
            crate::packets::prefix_with_length(&mut body);
            body
        },
    }
}

} // verus!
