//! Serverbound packets: the state-gated decoder from framed wire bytes to a
//! tagged union, a canonical encoder, and the proof that the two are inverse.
//!
//! Floating-point wire fields (positions, rotations) are carried as their
//! IEEE-754 bit patterns (`*_bits`): this layer moves bytes, it does not do
//! arithmetic on them.

use vstd::prelude::*;

use crate::reader::{
    be_bytes, bool_byte, lemma_p_bool, lemma_p_i64, lemma_p_u128, lemma_p_u16, lemma_p_u32,
    lemma_p_u64, p_bool, p_bytes, p_i64, p_u128, p_u16, p_u32, p_u64, p_u8, write_be, PacketBuf,
};
use crate::state::ConnectionState;
use crate::string::{lemma_p_string, p_string, string_bytes, string_fits, ReadString, WriteString};
use crate::util::ReadError;
use crate::varint::{
    lemma_p_varint, p_varint, varint_bytes, ReadVarInt, ReadVarLong, WriteVarInt,
};

verus! {

/// How one entity interacts with another.
#[derive(Debug, PartialEq, Eq, Clone, Copy, Structural)]
pub enum InteractionType {
    Interact,
    Attack,
    InteractAt,
}

/// One serverbound protocol message. `Unknown` preserves the undecoded body
/// bytes of any (state, opcode) pair this implementation does not model.
#[derive(Debug, PartialEq, Eq, Clone)]
pub enum IncomingPacket {
    Unknown { data: Vec<u8> },
    /// Packet ID: 0x00 under Handshake
    Handshake {
        protocol_version: i32,
        server_address: std::string::String,
        server_port: u16,
        next_state: i32,
    },
    /// Packet ID: 0x00 under Status
    StatusRequest,
    /// Packet ID: 0x01 under Status
    PingRequest { payload: i64 },
    /// Packet ID: 0x00 under Login
    LoginStart { name: std::string::String, player_uuid: Option<u128> },
    /// Packet ID: 0x10 under Play
    Interact {
        entity_id: i32,
        interaction_type: InteractionType,
        target_pos_bits: Option<(u32, u32, u32)>,
        hand: Option<i32>,
        sneaking: bool,
    },
    /// Packet ID: 0x12 under Play
    KeepAlive { keep_alive_id: i64 },
    /// Packet ID: 0x14 under Play
    SetPlayerPosition { x_bits: u64, y_bits: u64, z_bits: u64, on_ground: bool },
    /// Packet ID: 0x15 under Play
    SetPlayerPositionAndRotation {
        x_bits: u64,
        y_bits: u64,
        z_bits: u64,
        yaw_bits: u32,
        pitch_bits: u32,
        on_ground: bool,
    },
    /// Packet ID: 0x16 under Play
    SetPlayerRotation { yaw_bits: u32, pitch_bits: u32, on_ground: bool },
    /// Packet ID: 0x17 under Play
    SetPlayerOnGround { on_ground: bool },
    /// Packet ID: 0x1E under Play
    PlayerCommand { entity_id: i32, action_id: i32, jump_boost: i32 },
    /// Packet ID: 0x2F under Play
    SwingArm { hand: i32 },
    /// Packet ID: 0x32 under Play
    UseItem { hand: i32, sequence: i32 },
}

/// The spec-level mirror of [`IncomingPacket`], with strings and byte vectors
/// as sequences.
pub enum IncomingPacketView {
    Unknown { data: Seq<u8> },
    Handshake {
        protocol_version: i32,
        server_address: Seq<char>,
        server_port: u16,
        next_state: i32,
    },
    StatusRequest,
    PingRequest { payload: i64 },
    LoginStart { name: Seq<char>, player_uuid: Option<u128> },
    Interact {
        entity_id: i32,
        interaction_type: InteractionType,
        target_pos_bits: Option<(u32, u32, u32)>,
        hand: Option<i32>,
        sneaking: bool,
    },
    KeepAlive { keep_alive_id: i64 },
    SetPlayerPosition { x_bits: u64, y_bits: u64, z_bits: u64, on_ground: bool },
    SetPlayerPositionAndRotation {
        x_bits: u64,
        y_bits: u64,
        z_bits: u64,
        yaw_bits: u32,
        pitch_bits: u32,
        on_ground: bool,
    },
    SetPlayerRotation { yaw_bits: u32, pitch_bits: u32, on_ground: bool },
    SetPlayerOnGround { on_ground: bool },
    PlayerCommand { entity_id: i32, action_id: i32, jump_boost: i32 },
    SwingArm { hand: i32 },
    UseItem { hand: i32, sequence: i32 },
}

impl View for IncomingPacket {
    type V = IncomingPacketView;

    open spec fn view(&self) -> IncomingPacketView {
        match self {
            IncomingPacket::Unknown { data } => IncomingPacketView::Unknown { data: data@ },
            IncomingPacket::Handshake { protocol_version, server_address, server_port, next_state } => IncomingPacketView::Handshake {
                protocol_version: *protocol_version,
                server_address: server_address@,
                server_port: *server_port,
                next_state: *next_state,
            },
            IncomingPacket::StatusRequest => IncomingPacketView::StatusRequest,
            IncomingPacket::PingRequest { payload } => IncomingPacketView::PingRequest {
                payload: *payload,
            },
            IncomingPacket::LoginStart { name, player_uuid } => IncomingPacketView::LoginStart {
                name: name@,
                player_uuid: *player_uuid,
            },
            IncomingPacket::Interact {
                entity_id,
                interaction_type,
                target_pos_bits,
                hand,
                sneaking,
            } => IncomingPacketView::Interact {
                entity_id: *entity_id,
                interaction_type: *interaction_type,
                target_pos_bits: *target_pos_bits,
                hand: *hand,
                sneaking: *sneaking,
            },
            IncomingPacket::KeepAlive { keep_alive_id } => IncomingPacketView::KeepAlive {
                keep_alive_id: *keep_alive_id,
            },
            IncomingPacket::SetPlayerPosition { x_bits, y_bits, z_bits, on_ground } => IncomingPacketView::SetPlayerPosition {
                x_bits: *x_bits,
                y_bits: *y_bits,
                z_bits: *z_bits,
                on_ground: *on_ground,
            },
            IncomingPacket::SetPlayerPositionAndRotation {
                x_bits,
                y_bits,
                z_bits,
                yaw_bits,
                pitch_bits,
                on_ground,
            } => IncomingPacketView::SetPlayerPositionAndRotation {
                x_bits: *x_bits,
                y_bits: *y_bits,
                z_bits: *z_bits,
                yaw_bits: *yaw_bits,
                pitch_bits: *pitch_bits,
                on_ground: *on_ground,
            },
            IncomingPacket::SetPlayerRotation { yaw_bits, pitch_bits, on_ground } => IncomingPacketView::SetPlayerRotation {
                yaw_bits: *yaw_bits,
                pitch_bits: *pitch_bits,
                on_ground: *on_ground,
            },
            IncomingPacket::SetPlayerOnGround { on_ground } => IncomingPacketView::SetPlayerOnGround {
                on_ground: *on_ground,
            },
            IncomingPacket::PlayerCommand { entity_id, action_id, jump_boost } => IncomingPacketView::PlayerCommand {
                entity_id: *entity_id,
                action_id: *action_id,
                jump_boost: *jump_boost,
            },
            IncomingPacket::SwingArm { hand } => IncomingPacketView::SwingArm { hand: *hand },
            IncomingPacket::UseItem { hand, sequence } => IncomingPacketView::UseItem {
                hand: *hand,
                sequence: *sequence,
            },
        }
    }
}

impl IncomingPacketView {
    /// The connection state a packet of this shape is sent under.
    pub open spec fn spec_sent_state(self) -> ConnectionState {
        match self {
            IncomingPacketView::Handshake { .. } => ConnectionState::Handshake,
            IncomingPacketView::StatusRequest { .. } => ConnectionState::Status,
            IncomingPacketView::PingRequest { .. } => ConnectionState::Status,
            IncomingPacketView::LoginStart { .. } => ConnectionState::Login,
            _ => ConnectionState::Play,
        }
    }

    /// Whether handling this packet may change the connection state, so the
    /// reader must wait for a fresh state before decoding the next frame.
    pub open spec fn spec_can_change_state(self) -> bool {
        match self {
            IncomingPacketView::Handshake { .. } => true,
            IncomingPacketView::PingRequest { .. } => true,
            IncomingPacketView::LoginStart { .. } => true,
            _ => false,
        }
    }

    /// The wire opcode of this packet shape; `Unknown` has none and maps to -1.
    pub open spec fn spec_id(self) -> i32 {
        match self {
            IncomingPacketView::Unknown { .. } => -1i32,
            IncomingPacketView::Handshake { .. } => 0x00,
            IncomingPacketView::StatusRequest => 0x00,
            IncomingPacketView::PingRequest { .. } => 0x01,
            IncomingPacketView::LoginStart { .. } => 0x00,
            IncomingPacketView::Interact { .. } => 0x10,
            IncomingPacketView::KeepAlive { .. } => 0x12,
            IncomingPacketView::SetPlayerPosition { .. } => 0x14,
            IncomingPacketView::SetPlayerPositionAndRotation { .. } => 0x15,
            IncomingPacketView::SetPlayerRotation { .. } => 0x16,
            IncomingPacketView::SetPlayerOnGround { .. } => 0x17,
            IncomingPacketView::PlayerCommand { .. } => 0x1E,
            IncomingPacketView::SwingArm { .. } => 0x2F,
            IncomingPacketView::UseItem { .. } => 0x32,
        }
    }
}

impl IncomingPacket {
    /// The connection state this packet is sent under.
    pub fn sent_state(&self) -> (r: ConnectionState)
        ensures
            r == self@.spec_sent_state(),
    {
        match self {
            IncomingPacket::Handshake { .. } => ConnectionState::Handshake,
            IncomingPacket::StatusRequest { .. } | IncomingPacket::PingRequest { .. } => ConnectionState::Status,
            IncomingPacket::LoginStart { .. } => ConnectionState::Login,
            _ => ConnectionState::Play,
        }
    }

    /// Whether handling this packet may change the connection state.
    pub fn can_change_state(&self) -> (r: bool)
        ensures
            r == self@.spec_can_change_state(),
    {
        match self {
            IncomingPacket::Handshake { .. }
            | IncomingPacket::PingRequest { .. }
            | IncomingPacket::LoginStart { .. } => true,
            _ => false,
        }
    }
}

/// The interaction kind a raw varint decodes to: unmodeled values fall back
/// to a plain interaction.
pub open spec fn spec_interaction_of(raw: i32) -> InteractionType {
    if raw == 1 {
        InteractionType::Attack
    } else if raw == 2 {
        InteractionType::InteractAt
    } else {
        InteractionType::Interact
    }
}

/// The canonical varint value of an interaction kind.
pub open spec fn spec_interaction_raw(t: InteractionType) -> i32 {
    match t {
        InteractionType::Interact => 0,
        InteractionType::Attack => 1,
        InteractionType::InteractAt => 2,
    }
}

/// Decodes a handshake-state packet body for the given opcode.
pub open spec fn spec_decode_handshake(id: i32, s: Seq<u8>) -> Result<
    IncomingPacketView,
    ReadError,
> {
    if id == 0x00 {
        match p_varint(s) {
            Err(e) => Err(e),
            Ok((protocol_version, s)) => match p_string(s) {
                Err(e) => Err(e),
                Ok((server_address, s)) => match p_u16(s) {
                    Err(e) => Err(e),
                    Ok((server_port, s)) => match p_varint(s) {
                        Err(e) => Err(e),
                        Ok((next_state, s)) => Ok(IncomingPacketView::Handshake {
                            protocol_version,
                            server_address,
                            server_port,
                            next_state,
                        }),
                    },
                },
            },
        }
    } else {
        Ok(IncomingPacketView::Unknown { data: s })
    }
}

/// Decodes a status-state packet body for the given opcode.
pub open spec fn spec_decode_status(id: i32, s: Seq<u8>) -> Result<IncomingPacketView, ReadError> {
    if id == 0x00 {
        Ok(IncomingPacketView::StatusRequest)
    } else if id == 0x01 {
        match p_i64(s) {
            Err(e) => Err(e),
            Ok((payload, s)) => Ok(IncomingPacketView::PingRequest { payload }),
        }
    } else {
        Ok(IncomingPacketView::Unknown { data: s })
    }
}

/// Decodes a login-state packet body for the given opcode.
pub open spec fn spec_decode_login(id: i32, s: Seq<u8>) -> Result<IncomingPacketView, ReadError> {
    if id == 0x00 {
        match p_string(s) {
            Err(e) => Err(e),
            Ok((name, s)) => match p_bool(s) {
                Err(e) => Err(e),
                Ok((has_uuid, s)) => {
                    if has_uuid {
                        match p_u128(s) {
                            Err(e) => Err(e),
                            Ok((u, s)) => Ok(IncomingPacketView::LoginStart {
                                name,
                                player_uuid: Some(u),
                            }),
                        }
                    } else {
                        Ok(IncomingPacketView::LoginStart { name, player_uuid: None })
                    }
                },
            },
        }
    } else {
        Ok(IncomingPacketView::Unknown { data: s })
    }
}

/// Decodes the body of an entity-interaction packet.
pub open spec fn spec_decode_interact(s: Seq<u8>) -> Result<IncomingPacketView, ReadError> {
    match p_varint(s) {
        Err(e) => Err(e),
        Ok((entity_id, s)) => match p_varint(s) {
            Err(e) => Err(e),
            Ok((raw, s)) => {
                let interaction_type = spec_interaction_of(raw);
                let target = if interaction_type == InteractionType::InteractAt {
                    match p_u32(s) {
                        Err(e) => Err(e),
                        Ok((x, s)) => match p_u32(s) {
                            Err(e) => Err(e),
                            Ok((y, s)) => match p_u32(s) {
                                Err(e) => Err(e),
                                Ok((z, s)) => Ok((Some((x, y, z)), s)),
                            },
                        },
                    }
                } else {
                    Ok((None::<(u32, u32, u32)>, s))
                };
                match target {
                    Err(e) => Err(e),
                    Ok((target_pos_bits, s)) => {
                        let hand_r = if interaction_type != InteractionType::Attack {
                            match p_varint(s) {
                                Err(e) => Err(e),
                                Ok((h, s)) => Ok((Some(h), s)),
                            }
                        } else {
                            Ok((None::<i32>, s))
                        };
                        match hand_r {
                            Err(e) => Err(e),
                            Ok((hand, s)) => match p_bool(s) {
                                Err(e) => Err(e),
                                Ok((sneaking, s)) => Ok(IncomingPacketView::Interact {
                                    entity_id,
                                    interaction_type,
                                    target_pos_bits,
                                    hand,
                                    sneaking,
                                }),
                            },
                        }
                    },
                }
            },
        },
    }
}

/// Decodes the body of an absolute-move packet.
pub open spec fn spec_decode_set_position(s: Seq<u8>) -> Result<IncomingPacketView, ReadError> {
    match p_u64(s) {
        Err(e) => Err(e),
        Ok((x_bits, s)) => match p_u64(s) {
            Err(e) => Err(e),
            Ok((y_bits, s)) => match p_u64(s) {
                Err(e) => Err(e),
                Ok((z_bits, s)) => match p_bool(s) {
                    Err(e) => Err(e),
                    Ok((on_ground, s)) => Ok(IncomingPacketView::SetPlayerPosition {
                        x_bits,
                        y_bits,
                        z_bits,
                        on_ground,
                    }),
                },
            },
        },
    }
}

/// Decodes the body of an absolute move-and-look packet.
pub open spec fn spec_decode_set_position_rotation(s: Seq<u8>) -> Result<
    IncomingPacketView,
    ReadError,
> {
    match p_u64(s) {
        Err(e) => Err(e),
        Ok((x_bits, s)) => match p_u64(s) {
            Err(e) => Err(e),
            Ok((y_bits, s)) => match p_u64(s) {
                Err(e) => Err(e),
                Ok((z_bits, s)) => match p_u32(s) {
                    Err(e) => Err(e),
                    Ok((yaw_bits, s)) => match p_u32(s) {
                        Err(e) => Err(e),
                        Ok((pitch_bits, s)) => match p_bool(s) {
                            Err(e) => Err(e),
                            Ok((on_ground, s)) => Ok(
                                IncomingPacketView::SetPlayerPositionAndRotation {
                                    x_bits,
                                    y_bits,
                                    z_bits,
                                    yaw_bits,
                                    pitch_bits,
                                    on_ground,
                                },
                            ),
                        },
                    },
                },
            },
        },
    }
}

/// Decodes the body of a look-only packet.
pub open spec fn spec_decode_set_rotation(s: Seq<u8>) -> Result<IncomingPacketView, ReadError> {
    match p_u32(s) {
        Err(e) => Err(e),
        Ok((yaw_bits, s)) => match p_u32(s) {
            Err(e) => Err(e),
            Ok((pitch_bits, s)) => match p_bool(s) {
                Err(e) => Err(e),
                Ok((on_ground, s)) => Ok(IncomingPacketView::SetPlayerRotation {
                    yaw_bits,
                    pitch_bits,
                    on_ground,
                }),
            },
        },
    }
}

/// Decodes a play-state packet body for the given opcode.
pub open spec fn spec_decode_play(id: i32, s: Seq<u8>) -> Result<IncomingPacketView, ReadError> {
    if id == 0x10 {
        spec_decode_interact(s)
    } else if id == 0x12 {
        match p_i64(s) {
            Err(e) => Err(e),
            Ok((keep_alive_id, s)) => Ok(IncomingPacketView::KeepAlive { keep_alive_id }),
        }
    } else if id == 0x14 {
        spec_decode_set_position(s)
    } else if id == 0x15 {
        spec_decode_set_position_rotation(s)
    } else if id == 0x16 {
        spec_decode_set_rotation(s)
    } else if id == 0x17 {
        match p_bool(s) {
            Err(e) => Err(e),
            Ok((on_ground, s)) => Ok(IncomingPacketView::SetPlayerOnGround { on_ground }),
        }
    } else if id == 0x1E {
        match p_varint(s) {
            Err(e) => Err(e),
            Ok((entity_id, s)) => match p_varint(s) {
                Err(e) => Err(e),
                Ok((action_id, s)) => match p_varint(s) {
                    Err(e) => Err(e),
                    Ok((jump_boost, s)) => Ok(IncomingPacketView::PlayerCommand {
                        entity_id,
                        action_id,
                        jump_boost,
                    }),
                },
            },
        }
    } else if id == 0x2F {
        match p_varint(s) {
            Err(e) => Err(e),
            Ok((hand, s)) => Ok(IncomingPacketView::SwingArm { hand }),
        }
    } else if id == 0x32 {
        match p_varint(s) {
            Err(e) => Err(e),
            Ok((hand, s)) => match p_varint(s) {
                Err(e) => Err(e),
                Ok((sequence, s)) => Ok(IncomingPacketView::UseItem { hand, sequence }),
            },
        }
    } else {
        Ok(IncomingPacketView::Unknown { data: s })
    }
}

/// Decodes one packet body: the bytes after the opcode, under the given
/// state and opcode. An unregistered (state, opcode) pair yields `Unknown`
/// holding exactly the body bytes.
pub open spec fn spec_decode_body(state: ConnectionState, id: i32, s: Seq<u8>) -> Result<
    IncomingPacketView,
    ReadError,
> {
    match state {
        ConnectionState::Handshake => spec_decode_handshake(id, s),
        ConnectionState::Status => spec_decode_status(id, s),
        ConnectionState::Login => spec_decode_login(id, s),
        ConnectionState::Play => spec_decode_play(id, s),
        ConnectionState::Disconnect => Ok(IncomingPacketView::Unknown { data: s }),
    }
}

/// Decodes one framed packet from the head of `s`: a VarInt byte length, then
/// that many bytes holding a VarInt opcode and the body. A zero length is a
/// padding frame and yields an empty `Unknown`. Returns the packet and the
/// bytes after the frame.
pub open spec fn spec_read_packet(state: ConnectionState, s: Seq<u8>) -> Result<
    (IncomingPacketView, Seq<u8>),
    ReadError,
> {
    match p_varint(s) {
        Err(e) => Err(e),
        Ok((length, s1)) => {
            if length == 0 {
                Ok((IncomingPacketView::Unknown { data: Seq::empty() }, s1))
            } else if length < 0 || s1.len() < length {
                Err(ReadError::EndOfFile)
            } else {
                let body = s1.take(length as int);
                let rest = s1.skip(length as int);
                match p_varint(body) {
                    Err(e) => Err(e),
                    Ok((id, b)) => match spec_decode_body(state, id, b) {
                        Err(e) => Err(e),
                        Ok(p) => Ok((p, rest)),
                    },
                }
            }
        },
    }
}

/// Reads one boolean byte.
fn read_bool(buf: &mut PacketBuf) -> (r: Result<bool, ReadError>)
    requires
        old(buf).wf(),
    ensures
        final(buf).wf(),
        final(buf).data@ == old(buf).data@,
        match p_bool(old(buf).remaining()) {
            Ok((v, rest)) => r == Ok::<bool, ReadError>(v) && final(buf).remaining() == rest,
            Err(e) => r == Err::<bool, ReadError>(e),
        },
{
    match buf.read_u8() {
        Ok(b) => Ok(b != 0),
        Err(e) => Err(e),
    }
}

/// Reads the whole remaining body as an `Unknown` packet.
fn read_unknown(buf: &mut PacketBuf) -> (r: IncomingPacket)
    requires
        old(buf).wf(),
    ensures
        final(buf).wf(),
        r@ == (IncomingPacketView::Unknown { data: old(buf).remaining() }),
{
    let ghost s0 = buf.remaining();
    let n = buf.remaining_len();
    let data = match buf.read_bytes(n) {
        Ok(v) => v,
        Err(_) => Vec::new(),
    };
    proof {
        assert(s0.take(n as int) =~= s0);
    }
    IncomingPacket::Unknown { data }
}

/// Decodes a handshake-state packet body, mirroring [`spec_decode_handshake`].
fn read_body_handshake(buf: &mut PacketBuf, id: i32) -> (r: Result<IncomingPacket, ReadError>)
    requires
        old(buf).wf(),
    ensures
        final(buf).wf(),
        match spec_decode_handshake(id, old(buf).remaining()) {
            Ok(pv) => r is Ok && r->Ok_0@ == pv,
            Err(e) => r == Err::<IncomingPacket, ReadError>(e),
        },
{
    if id == 0x00 {
        let protocol_version = match buf.read_varint() {
            Ok(v) => v,
            Err(e) => return Err(e),
        };
        let server_address = match buf.read_string() {
            Ok(v) => v,
            Err(e) => return Err(e),
        };
        let server_port = match buf.read_u16() {
            Ok(v) => v,
            Err(e) => return Err(e),
        };
        let next_state = match buf.read_varint() {
            Ok(v) => v,
            Err(e) => return Err(e),
        };
        Ok(IncomingPacket::Handshake { protocol_version, server_address, server_port, next_state })
    } else {
        Ok(read_unknown(buf))
    }
}

/// Decodes a status-state packet body, mirroring [`spec_decode_status`].
fn read_body_status(buf: &mut PacketBuf, id: i32) -> (r: Result<IncomingPacket, ReadError>)
    requires
        old(buf).wf(),
    ensures
        final(buf).wf(),
        match spec_decode_status(id, old(buf).remaining()) {
            Ok(pv) => r is Ok && r->Ok_0@ == pv,
            Err(e) => r == Err::<IncomingPacket, ReadError>(e),
        },
{
    if id == 0x00 {
        Ok(IncomingPacket::StatusRequest)
    } else if id == 0x01 {
        let payload = match buf.read_i64() {
            Ok(v) => v,
            Err(e) => return Err(e),
        };
        Ok(IncomingPacket::PingRequest { payload })
    } else {
        Ok(read_unknown(buf))
    }
}

/// Decodes a login-state packet body, mirroring [`spec_decode_login`].
fn read_body_login(buf: &mut PacketBuf, id: i32) -> (r: Result<IncomingPacket, ReadError>)
    requires
        old(buf).wf(),
    ensures
        final(buf).wf(),
        match spec_decode_login(id, old(buf).remaining()) {
            Ok(pv) => r is Ok && r->Ok_0@ == pv,
            Err(e) => r == Err::<IncomingPacket, ReadError>(e),
        },
{
    if id == 0x00 {
        let name = match buf.read_string() {
            Ok(v) => v,
            Err(e) => return Err(e),
        };
        let has_uuid = match read_bool(buf) {
            Ok(v) => v,
            Err(e) => return Err(e),
        };
        let player_uuid = if has_uuid {
            match buf.read_u128() {
                Ok(v) => Some(v),
                Err(e) => return Err(e),
            }
        } else {
            None
        };
        Ok(IncomingPacket::LoginStart { name, player_uuid })
    } else {
        Ok(read_unknown(buf))
    }
}

/// Decodes the body of an entity-interaction packet, mirroring
/// [`spec_decode_interact`].
fn read_body_interact(buf: &mut PacketBuf) -> (r: Result<IncomingPacket, ReadError>)
    requires
        old(buf).wf(),
    ensures
        final(buf).wf(),
        match spec_decode_interact(old(buf).remaining()) {
            Ok(pv) => r is Ok && r->Ok_0@ == pv,
            Err(e) => r == Err::<IncomingPacket, ReadError>(e),
        },
{
    let entity_id = match buf.read_varint() {
        Ok(v) => v,
        Err(e) => return Err(e),
    };
    let raw = match buf.read_varint() {
        Ok(v) => v,
        Err(e) => return Err(e),
    };
    let interaction_type = if raw == 1 {
        InteractionType::Attack
    } else if raw == 2 {
        InteractionType::InteractAt
    } else {
        InteractionType::Interact
    };
    let target_pos_bits = if interaction_type == InteractionType::InteractAt {
        let x = match buf.read_u32() {
            Ok(v) => v,
            Err(e) => return Err(e),
        };
        let y = match buf.read_u32() {
            Ok(v) => v,
            Err(e) => return Err(e),
        };
        let z = match buf.read_u32() {
            Ok(v) => v,
            Err(e) => return Err(e),
        };
        Some((x, y, z))
    } else {
        None
    };
    let hand = if interaction_type != InteractionType::Attack {
        match buf.read_varint() {
            Ok(v) => Some(v),
            Err(e) => return Err(e),
        }
    } else {
        None
    };
    let sneaking = match read_bool(buf) {
        Ok(v) => v,
        Err(e) => return Err(e),
    };
    Ok(IncomingPacket::Interact { entity_id, interaction_type, target_pos_bits, hand, sneaking })
}

/// Decodes an absolute-move body, mirroring [`spec_decode_set_position`].
fn read_body_set_position(buf: &mut PacketBuf) -> (r: Result<IncomingPacket, ReadError>)
    requires
        old(buf).wf(),
    ensures
        final(buf).wf(),
        match spec_decode_set_position(old(buf).remaining()) {
            Ok(pv) => r is Ok && r->Ok_0@ == pv,
            Err(e) => r == Err::<IncomingPacket, ReadError>(e),
        },
{
    let x_bits = match buf.read_u64() {
        Ok(v) => v,
        Err(e) => return Err(e),
    };
    let y_bits = match buf.read_u64() {
        Ok(v) => v,
        Err(e) => return Err(e),
    };
    let z_bits = match buf.read_u64() {
        Ok(v) => v,
        Err(e) => return Err(e),
    };
    let on_ground = match read_bool(buf) {
        Ok(v) => v,
        Err(e) => return Err(e),
    };
    Ok(IncomingPacket::SetPlayerPosition { x_bits, y_bits, z_bits, on_ground })
}

/// Decodes an absolute move-and-look body, mirroring
/// [`spec_decode_set_position_rotation`].
fn read_body_set_position_rotation(buf: &mut PacketBuf) -> (r: Result<IncomingPacket, ReadError>)
    requires
        old(buf).wf(),
    ensures
        final(buf).wf(),
        match spec_decode_set_position_rotation(old(buf).remaining()) {
            Ok(pv) => r is Ok && r->Ok_0@ == pv,
            Err(e) => r == Err::<IncomingPacket, ReadError>(e),
        },
{
    let x_bits = match buf.read_u64() {
        Ok(v) => v,
        Err(e) => return Err(e),
    };
    let y_bits = match buf.read_u64() {
        Ok(v) => v,
        Err(e) => return Err(e),
    };
    let z_bits = match buf.read_u64() {
        Ok(v) => v,
        Err(e) => return Err(e),
    };
    let yaw_bits = match buf.read_u32() {
        Ok(v) => v,
        Err(e) => return Err(e),
    };
    let pitch_bits = match buf.read_u32() {
        Ok(v) => v,
        Err(e) => return Err(e),
    };
    let on_ground = match read_bool(buf) {
        Ok(v) => v,
        Err(e) => return Err(e),
    };
    Ok(
        IncomingPacket::SetPlayerPositionAndRotation {
            x_bits,
            y_bits,
            z_bits,
            yaw_bits,
            pitch_bits,
            on_ground,
        },
    )
}

/// Decodes a look-only body, mirroring [`spec_decode_set_rotation`].
fn read_body_set_rotation(buf: &mut PacketBuf) -> (r: Result<IncomingPacket, ReadError>)
    requires
        old(buf).wf(),
    ensures
        final(buf).wf(),
        match spec_decode_set_rotation(old(buf).remaining()) {
            Ok(pv) => r is Ok && r->Ok_0@ == pv,
            Err(e) => r == Err::<IncomingPacket, ReadError>(e),
        },
{
    let yaw_bits = match buf.read_u32() {
        Ok(v) => v,
        Err(e) => return Err(e),
    };
    let pitch_bits = match buf.read_u32() {
        Ok(v) => v,
        Err(e) => return Err(e),
    };
    let on_ground = match read_bool(buf) {
        Ok(v) => v,
        Err(e) => return Err(e),
    };
    Ok(IncomingPacket::SetPlayerRotation { yaw_bits, pitch_bits, on_ground })
}

/// Decodes a play-state packet body, mirroring [`spec_decode_play`].
#[verifier::rlimit(100)]
#[verifier::spinoff_prover]
fn read_body_play(buf: &mut PacketBuf, id: i32) -> (r: Result<IncomingPacket, ReadError>)
    requires
        old(buf).wf(),
    ensures
        final(buf).wf(),
        match spec_decode_play(id, old(buf).remaining()) {
            Ok(pv) => r is Ok && r->Ok_0@ == pv,
            Err(e) => r == Err::<IncomingPacket, ReadError>(e),
        },
{
    if id == 0x10 {
        read_body_interact(buf)
    } else if id == 0x12 {
        let keep_alive_id = match buf.read_i64() {
            Ok(v) => v,
            Err(e) => return Err(e),
        };
        Ok(IncomingPacket::KeepAlive { keep_alive_id })
    } else if id == 0x14 {
        read_body_set_position(buf)
    } else if id == 0x15 {
        read_body_set_position_rotation(buf)
    } else if id == 0x16 {
        read_body_set_rotation(buf)
    } else if id == 0x17 {
        let on_ground = match read_bool(buf) {
            Ok(v) => v,
            Err(e) => return Err(e),
        };
        Ok(IncomingPacket::SetPlayerOnGround { on_ground })
    } else if id == 0x1E {
        let entity_id = match buf.read_varint() {
            Ok(v) => v,
            Err(e) => return Err(e),
        };
        let action_id = match buf.read_varint() {
            Ok(v) => v,
            Err(e) => return Err(e),
        };
        let jump_boost = match buf.read_varint() {
            Ok(v) => v,
            Err(e) => return Err(e),
        };
        Ok(IncomingPacket::PlayerCommand { entity_id, action_id, jump_boost })
    } else if id == 0x2F {
        let hand = match buf.read_varint() {
            Ok(v) => v,
            Err(e) => return Err(e),
        };
        Ok(IncomingPacket::SwingArm { hand })
    } else if id == 0x32 {
        let hand = match buf.read_varint() {
            Ok(v) => v,
            Err(e) => return Err(e),
        };
        let sequence = match buf.read_varint() {
            Ok(v) => v,
            Err(e) => return Err(e),
        };
        Ok(IncomingPacket::UseItem { hand, sequence })
    } else {
        Ok(read_unknown(buf))
    }
}

/// Decodes one packet body from `buf` under the given state and opcode.
pub fn read_packet_body(buf: &mut PacketBuf, state: &ConnectionState, id: i32) -> (r: Result<
    IncomingPacket,
    ReadError,
>)
    requires
        old(buf).wf(),
    ensures
        final(buf).wf(),
        match spec_decode_body(*state, id, old(buf).remaining()) {
            Ok(pv) => r is Ok && r->Ok_0@ == pv,
            Err(e) => r == Err::<IncomingPacket, ReadError>(e),
        },
{
    match state {
        ConnectionState::Handshake => read_body_handshake(buf, id),
        ConnectionState::Status => read_body_status(buf, id),
        ConnectionState::Login => read_body_login(buf, id),
        ConnectionState::Play => read_body_play(buf, id),
        ConnectionState::Disconnect => Ok(read_unknown(buf)),
    }
}

/// Decodes one framed packet from `buf` under the given state.
pub fn read_packet(buf: &mut PacketBuf, state: &ConnectionState) -> (r: Result<
    IncomingPacket,
    ReadError,
>)
    requires
        old(buf).wf(),
    ensures
        final(buf).wf(),
        match spec_read_packet(*state, old(buf).remaining()) {
            Ok((pv, rest)) => r is Ok && r->Ok_0@ == pv && final(buf).remaining() == rest,
            Err(e) => r == Err::<IncomingPacket, ReadError>(e),
        },
{
    let length = match buf.read_varint() {
        Ok(v) => v,
        Err(e) => return Err(e),
    };
    if length == 0 {
        let data: Vec<u8> = Vec::new();
        proof {
            assert(data@ =~= Seq::<u8>::empty());
        }
        return Ok(IncomingPacket::Unknown { data });
    }
    if length < 0 {
        return Err(ReadError::EndOfFile);
    }
    let body = match buf.read_bytes(length as usize) {
        Ok(v) => v,
        Err(e) => return Err(e),
    };
    let mut body_buf = PacketBuf::new(body, Vec::new());
    let id = match body_buf.read_varint() {
        Ok(v) => v,
        Err(e) => return Err(e),
    };
    read_packet_body(&mut body_buf, state, id)
}

impl IncomingPacketView {
    /// Whether this packet can be framed and sent: its strings fit the VarInt
    /// length prefix, its optional interaction fields agree with the
    /// interaction kind, and its body fits one frame.
    pub open spec fn wf(self) -> bool {
        &&& match self {
            IncomingPacketView::Handshake { server_address, .. } => string_fits(server_address),
            IncomingPacketView::LoginStart { name, .. } => string_fits(name),
            IncomingPacketView::Interact { interaction_type, target_pos_bits, hand, .. } => {
                &&& (target_pos_bits is Some <==> interaction_type == InteractionType::InteractAt)
                &&& (hand is Some <==> interaction_type != InteractionType::Attack)
            },
            _ => true,
        }
        &&& spec_encode_body(self).len() + 5 <= 0x7FFFFFFF
    }
}

/// The canonical body bytes of a packet: each field in wire order. For
/// `Unknown` it is the preserved raw bytes.
pub open spec fn spec_encode_body(p: IncomingPacketView) -> Seq<u8> {
    match p {
        IncomingPacketView::Unknown { data } => data,
        IncomingPacketView::Handshake {
            protocol_version,
            server_address,
            server_port,
            next_state,
        } => varint_bytes(protocol_version) + string_bytes(server_address) + be_bytes(
            server_port as nat,
            2,
        ) + varint_bytes(next_state),
        IncomingPacketView::StatusRequest => Seq::empty(),
        IncomingPacketView::PingRequest { payload } => be_bytes((payload as u64) as nat, 8),
        IncomingPacketView::LoginStart { name, player_uuid } => string_bytes(name) + bool_byte(
            player_uuid is Some,
        ) + match player_uuid {
            Some(u) => be_bytes(u as nat, 16),
            None => Seq::empty(),
        },
        IncomingPacketView::Interact {
            entity_id,
            interaction_type,
            target_pos_bits,
            hand,
            sneaking,
        } => varint_bytes(entity_id) + varint_bytes(spec_interaction_raw(interaction_type))
            + (match target_pos_bits {
            Some((x, y, z)) => be_bytes(x as nat, 4) + be_bytes(y as nat, 4) + be_bytes(
                z as nat,
                4,
            ),
            None => Seq::empty(),
        }) + (match hand {
            Some(h) => varint_bytes(h),
            None => Seq::empty(),
        }) + bool_byte(sneaking),
        IncomingPacketView::KeepAlive { keep_alive_id } => be_bytes(
            (keep_alive_id as u64) as nat,
            8,
        ),
        IncomingPacketView::SetPlayerPosition { x_bits, y_bits, z_bits, on_ground } => be_bytes(
            x_bits as nat,
            8,
        ) + be_bytes(y_bits as nat, 8) + be_bytes(z_bits as nat, 8) + bool_byte(on_ground),
        IncomingPacketView::SetPlayerPositionAndRotation {
            x_bits,
            y_bits,
            z_bits,
            yaw_bits,
            pitch_bits,
            on_ground,
        } => be_bytes(x_bits as nat, 8) + be_bytes(y_bits as nat, 8) + be_bytes(z_bits as nat, 8)
            + be_bytes(yaw_bits as nat, 4) + be_bytes(pitch_bits as nat, 4) + bool_byte(on_ground),
        IncomingPacketView::SetPlayerRotation { yaw_bits, pitch_bits, on_ground } => be_bytes(
            yaw_bits as nat,
            4,
        ) + be_bytes(pitch_bits as nat, 4) + bool_byte(on_ground),
        IncomingPacketView::SetPlayerOnGround { on_ground } => bool_byte(on_ground),
        IncomingPacketView::PlayerCommand { entity_id, action_id, jump_boost } => varint_bytes(
            entity_id,
        ) + varint_bytes(action_id) + varint_bytes(jump_boost),
        IncomingPacketView::SwingArm { hand } => varint_bytes(hand),
        IncomingPacketView::UseItem { hand, sequence } => varint_bytes(hand) + varint_bytes(
            sequence,
        ),
    }
}

/// The full frame of a packet: the byte length of opcode and body as a
/// VarInt, then the opcode as a VarInt, then the body.
pub open spec fn spec_encode_packet(p: IncomingPacketView) -> Seq<u8> {
    let body = varint_bytes(p.spec_id()) + spec_encode_body(p);
    varint_bytes(body.len() as i32) + body
}

impl IncomingPacket {
    /// The wire opcode of this packet; `Unknown` has none and maps to -1.
    pub fn packet_id(&self) -> (r: i32)
        ensures
            r == self@.spec_id(),
    {
        match self {
            IncomingPacket::Unknown { .. } => -1,
            IncomingPacket::Handshake { .. } => 0x00,
            IncomingPacket::StatusRequest => 0x00,
            IncomingPacket::PingRequest { .. } => 0x01,
            IncomingPacket::LoginStart { .. } => 0x00,
            IncomingPacket::Interact { .. } => 0x10,
            IncomingPacket::KeepAlive { .. } => 0x12,
            IncomingPacket::SetPlayerPosition { .. } => 0x14,
            IncomingPacket::SetPlayerPositionAndRotation { .. } => 0x15,
            IncomingPacket::SetPlayerRotation { .. } => 0x16,
            IncomingPacket::SetPlayerOnGround { .. } => 0x17,
            IncomingPacket::PlayerCommand { .. } => 0x1E,
            IncomingPacket::SwingArm { .. } => 0x2F,
            IncomingPacket::UseItem { .. } => 0x32,
        }
    }
}

/// Appends the canonical body bytes of `p`, mirroring [`spec_encode_body`].
#[verifier::rlimit(50)]
pub fn write_packet_body(p: &IncomingPacket, buf: &mut Vec<u8>)
    requires
        p@.wf(),
    ensures
        final(buf)@ == old(buf)@ + spec_encode_body(p@),
{
    match p {
        IncomingPacket::Unknown { data } => {
            buf.extend_from_slice(data.as_slice());
        },
        IncomingPacket::Handshake { protocol_version, server_address, server_port, next_state } => {
            buf.write_varint(*protocol_version);
            buf.write_string(server_address.as_str());
            write_be(buf, *server_port as u128, 2);
            buf.write_varint(*next_state);
            proof {
                assert(buf@ =~= old(buf)@ + spec_encode_body(p@));
            }
        },
        IncomingPacket::StatusRequest => {
            proof {
                assert(buf@ =~= old(buf)@ + spec_encode_body(p@));
            }
        },
        IncomingPacket::PingRequest { payload } => {
            write_be(buf, (*payload as u64) as u128, 8);
        },
        IncomingPacket::LoginStart { name, player_uuid } => {
            buf.write_string(name.as_str());
            match player_uuid {
                Some(u) => {
                    buf.push(1);
                    write_be(buf, *u, 16);
                },
                None => {
                    buf.push(0);
                },
            }
            proof {
                assert(buf@ =~= old(buf)@ + spec_encode_body(p@));
            }
        },
        IncomingPacket::Interact { entity_id, interaction_type, target_pos_bits, hand, sneaking } => {
            buf.write_varint(*entity_id);
            let raw: i32 = match interaction_type {
                InteractionType::Interact => 0,
                InteractionType::Attack => 1,
                InteractionType::InteractAt => 2,
            };
            buf.write_varint(raw);
            match target_pos_bits {
                Some((x, y, z)) => {
                    write_be(buf, *x as u128, 4);
                    write_be(buf, *y as u128, 4);
                    write_be(buf, *z as u128, 4);
                },
                None => {},
            }
            match hand {
                Some(h) => {
                    buf.write_varint(*h);
                },
                None => {},
            }
            buf.push(if *sneaking {
                1
            } else {
                0
            });
            proof {
                assert(buf@ =~= old(buf)@ + spec_encode_body(p@));
            }
        },
        IncomingPacket::KeepAlive { keep_alive_id } => {
            write_be(buf, (*keep_alive_id as u64) as u128, 8);
        },
        IncomingPacket::SetPlayerPosition { x_bits, y_bits, z_bits, on_ground } => {
            write_be(buf, *x_bits as u128, 8);
            write_be(buf, *y_bits as u128, 8);
            write_be(buf, *z_bits as u128, 8);
            buf.push(if *on_ground {
                1
            } else {
                0
            });
            proof {
                assert(buf@ =~= old(buf)@ + spec_encode_body(p@));
            }
        },
        IncomingPacket::SetPlayerPositionAndRotation {
            x_bits,
            y_bits,
            z_bits,
            yaw_bits,
            pitch_bits,
            on_ground,
        } => {
            write_be(buf, *x_bits as u128, 8);
            write_be(buf, *y_bits as u128, 8);
            write_be(buf, *z_bits as u128, 8);
            write_be(buf, *yaw_bits as u128, 4);
            write_be(buf, *pitch_bits as u128, 4);
            buf.push(if *on_ground {
                1
            } else {
                0
            });
            proof {
                assert(buf@ =~= old(buf)@ + spec_encode_body(p@));
            }
        },
        IncomingPacket::SetPlayerRotation { yaw_bits, pitch_bits, on_ground } => {
            write_be(buf, *yaw_bits as u128, 4);
            write_be(buf, *pitch_bits as u128, 4);
            buf.push(if *on_ground {
                1
            } else {
                0
            });
            proof {
                assert(buf@ =~= old(buf)@ + spec_encode_body(p@));
            }
        },
        IncomingPacket::SetPlayerOnGround { on_ground } => {
            buf.push(if *on_ground {
                1
            } else {
                0
            });
            proof {
                assert(buf@ =~= old(buf)@ + spec_encode_body(p@));
            }
        },
        IncomingPacket::PlayerCommand { entity_id, action_id, jump_boost } => {
            buf.write_varint(*entity_id);
            buf.write_varint(*action_id);
            buf.write_varint(*jump_boost);
            proof {
                assert(buf@ =~= old(buf)@ + spec_encode_body(p@));
            }
        },
        IncomingPacket::SwingArm { hand } => {
            buf.write_varint(*hand);
        },
        IncomingPacket::UseItem { hand, sequence } => {
            buf.write_varint(*hand);
            buf.write_varint(*sequence);
            proof {
                assert(buf@ =~= old(buf)@ + spec_encode_body(p@));
            }
        },
    }
}

/// Prepends the VarInt byte length of a finished packet body, turning it
/// into one wire frame.
pub fn prefix_with_length(packet: &mut Vec<u8>)
    ensures
        final(packet)@ == varint_bytes(old(packet)@.len() as i32) + old(packet)@,
{
    let mut out: Vec<u8> = Vec::new();
    out.write_varint(packet.len() as i32);
    out.append(packet);
    *packet = out;
}

/// Encodes one packet as a full frame: length prefix, opcode, body.
pub fn encode_packet(p: &IncomingPacket) -> (r: Vec<u8>)
    requires
        p@.wf(),
        !(p@ is Unknown),
    ensures
        r@ == spec_encode_packet(p@),
{
    let mut body: Vec<u8> = Vec::new();
    body.write_varint(p.packet_id());
    write_packet_body(p, &mut body);
    proof {
        crate::varint::lemma_varint_len(p@.spec_id());
    }
    prefix_with_length(&mut body);
    body
}

proof fn lemma_rt_handshake(p: IncomingPacketView)
    requires
        p.wf(),
        p is Handshake,
    ensures
        spec_decode_body(p.spec_sent_state(), p.spec_id(), spec_encode_body(p)) == Ok::<
            IncomingPacketView,
            ReadError,
        >(p),
{
    let b = spec_encode_body(p);
    let empty = Seq::<u8>::empty();
    match p {
        IncomingPacketView::Handshake { protocol_version, server_address, server_port, next_state } => {
            let r3 = varint_bytes(next_state);
            let r2 = be_bytes(server_port as nat, 2) + r3;
            let r1 = string_bytes(server_address) + r2;
            assert(b =~= varint_bytes(protocol_version) + r1);
            lemma_p_varint(protocol_version, r1);
            assert(r1 =~= string_bytes(server_address) + r2);
            lemma_p_string(server_address, r2);
            lemma_p_u16(server_port, r3);
            assert(r3 =~= varint_bytes(next_state) + empty);
            lemma_p_varint(next_state, empty);
        },
        _ => {
            assert(false);
        },
    }
}

proof fn lemma_rt_pingrequest(p: IncomingPacketView)
    requires
        p.wf(),
        p is PingRequest,
    ensures
        spec_decode_body(p.spec_sent_state(), p.spec_id(), spec_encode_body(p)) == Ok::<
            IncomingPacketView,
            ReadError,
        >(p),
{
    let b = spec_encode_body(p);
    let empty = Seq::<u8>::empty();
    match p {
        IncomingPacketView::PingRequest { payload } => {
            assert(b =~= be_bytes((payload as u64) as nat, 8) + empty);
            lemma_p_i64(payload, empty);
        },
        _ => {
            assert(false);
        },
    }
}

proof fn lemma_rt_loginstart(p: IncomingPacketView)
    requires
        p.wf(),
        p is LoginStart,
    ensures
        spec_decode_body(p.spec_sent_state(), p.spec_id(), spec_encode_body(p)) == Ok::<
            IncomingPacketView,
            ReadError,
        >(p),
{
    let b = spec_encode_body(p);
    let empty = Seq::<u8>::empty();
    match p {
        IncomingPacketView::LoginStart { name, player_uuid } => {
            match player_uuid {
                Some(u) => {
                    let r2 = be_bytes(u as nat, 16);
                    let r1 = bool_byte(true) + r2;
                    assert(b =~= string_bytes(name) + r1);
                    lemma_p_string(name, r1);
                    lemma_p_bool(true, r2);
                    assert(r2 =~= be_bytes(u as nat, 16) + empty);
                    lemma_p_u128(u, empty);
                },
                None => {
                    let r1 = bool_byte(false);
                    assert(b =~= string_bytes(name) + r1);
                    lemma_p_string(name, r1);
                    assert(r1 =~= bool_byte(false) + empty);
                    lemma_p_bool(false, empty);
                },
            }
        },
        _ => {
            assert(false);
        },
    }
}

#[verifier::rlimit(100)]
#[verifier::spinoff_prover]
proof fn lemma_rt_interact(p: IncomingPacketView)
    requires
        p.wf(),
        p is Interact,
    ensures
        spec_decode_body(p.spec_sent_state(), p.spec_id(), spec_encode_body(p)) == Ok::<
            IncomingPacketView,
            ReadError,
        >(p),
{
    let b = spec_encode_body(p);
    let empty = Seq::<u8>::empty();
    match p {
        IncomingPacketView::Interact { entity_id, interaction_type, target_pos_bits, hand, sneaking } => {
            let raw = spec_interaction_raw(interaction_type);
            assert(spec_interaction_of(raw) == interaction_type);
            let sne = bool_byte(sneaking);
            match interaction_type {
                InteractionType::InteractAt => {
                    let (x, y, z) = target_pos_bits->Some_0;
                    let h = hand->Some_0;
                    let r5 = sne;
                    let r4 = varint_bytes(h) + r5;
                    let r3z = be_bytes(z as nat, 4) + r4;
                    let r3y = be_bytes(y as nat, 4) + r3z;
                    let r3x = be_bytes(x as nat, 4) + r3y;
                    let r1 = varint_bytes(raw) + r3x;
                    assert(b =~= varint_bytes(entity_id) + r1);
                    lemma_p_varint(entity_id, r1);
                    lemma_p_varint(raw, r3x);
                    lemma_p_u32(x, r3y);
                    lemma_p_u32(y, r3z);
                    lemma_p_u32(z, r4);
                    lemma_p_varint(h, r5);
                    assert(r5 =~= bool_byte(sneaking) + empty);
                    lemma_p_bool(sneaking, empty);
                },
                InteractionType::Interact => {
                    let h = hand->Some_0;
                    let r5 = sne;
                    let r4 = varint_bytes(h) + r5;
                    let r1 = varint_bytes(raw) + r4;
                    assert(b =~= varint_bytes(entity_id) + r1);
                    lemma_p_varint(entity_id, r1);
                    lemma_p_varint(raw, r4);
                    lemma_p_varint(h, r5);
                    assert(r5 =~= bool_byte(sneaking) + empty);
                    lemma_p_bool(sneaking, empty);
                },
                InteractionType::Attack => {
                    let r5 = sne;
                    let r1 = varint_bytes(raw) + r5;
                    assert(b =~= varint_bytes(entity_id) + r1);
                    lemma_p_varint(entity_id, r1);
                    lemma_p_varint(raw, r5);
                    assert(r5 =~= bool_byte(sneaking) + empty);
                    lemma_p_bool(sneaking, empty);
                },
            }
        },
        _ => {
            assert(false);
        },
    }
}

proof fn lemma_rt_keepalive(p: IncomingPacketView)
    requires
        p.wf(),
        p is KeepAlive,
    ensures
        spec_decode_body(p.spec_sent_state(), p.spec_id(), spec_encode_body(p)) == Ok::<
            IncomingPacketView,
            ReadError,
        >(p),
{
    let b = spec_encode_body(p);
    let empty = Seq::<u8>::empty();
    match p {
        IncomingPacketView::KeepAlive { keep_alive_id } => {
            assert(b =~= be_bytes((keep_alive_id as u64) as nat, 8) + empty);
            lemma_p_i64(keep_alive_id, empty);
        },
        _ => {
            assert(false);
        },
    }
}

proof fn lemma_rt_setplayerposition(p: IncomingPacketView)
    requires
        p.wf(),
        p is SetPlayerPosition,
    ensures
        spec_decode_body(p.spec_sent_state(), p.spec_id(), spec_encode_body(p)) == Ok::<
            IncomingPacketView,
            ReadError,
        >(p),
{
    let b = spec_encode_body(p);
    let empty = Seq::<u8>::empty();
    match p {
        IncomingPacketView::SetPlayerPosition { x_bits, y_bits, z_bits, on_ground } => {
            let r4 = bool_byte(on_ground);
            let r3 = be_bytes(z_bits as nat, 8) + r4;
            let r2 = be_bytes(y_bits as nat, 8) + r3;
            assert(b =~= be_bytes(x_bits as nat, 8) + r2);
            lemma_p_u64(x_bits, r2);
            lemma_p_u64(y_bits, r3);
            lemma_p_u64(z_bits, r4);
            assert(r4 =~= bool_byte(on_ground) + empty);
            lemma_p_bool(on_ground, empty);
        },
        _ => {
            assert(false);
        },
    }
}

#[verifier::rlimit(100)]
#[verifier::spinoff_prover]
proof fn lemma_rt_setplayerpositionandrotation(p: IncomingPacketView)
    requires
        p.wf(),
        p is SetPlayerPositionAndRotation,
    ensures
        spec_decode_body(p.spec_sent_state(), p.spec_id(), spec_encode_body(p)) == Ok::<
            IncomingPacketView,
            ReadError,
        >(p),
{
    let b = spec_encode_body(p);
    let empty = Seq::<u8>::empty();
    match p {
        IncomingPacketView::SetPlayerPositionAndRotation { x_bits, y_bits, z_bits, yaw_bits, pitch_bits, on_ground } => {
            let r6 = bool_byte(on_ground);
            let r5 = be_bytes(pitch_bits as nat, 4) + r6;
            let r4 = be_bytes(yaw_bits as nat, 4) + r5;
            let r3 = be_bytes(z_bits as nat, 8) + r4;
            let r2 = be_bytes(y_bits as nat, 8) + r3;
            assert(b =~= be_bytes(x_bits as nat, 8) + r2);
            lemma_p_u64(x_bits, r2);
            lemma_p_u64(y_bits, r3);
            lemma_p_u64(z_bits, r4);
            lemma_p_u32(yaw_bits, r5);
            lemma_p_u32(pitch_bits, r6);
            assert(r6 =~= bool_byte(on_ground) + empty);
            lemma_p_bool(on_ground, empty);
        },
        _ => {
            assert(false);
        },
    }
}

proof fn lemma_rt_setplayerrotation(p: IncomingPacketView)
    requires
        p.wf(),
        p is SetPlayerRotation,
    ensures
        spec_decode_body(p.spec_sent_state(), p.spec_id(), spec_encode_body(p)) == Ok::<
            IncomingPacketView,
            ReadError,
        >(p),
{
    let b = spec_encode_body(p);
    let empty = Seq::<u8>::empty();
    match p {
        IncomingPacketView::SetPlayerRotation { yaw_bits, pitch_bits, on_ground } => {
            let r3 = bool_byte(on_ground);
            let r2 = be_bytes(pitch_bits as nat, 4) + r3;
            assert(b =~= be_bytes(yaw_bits as nat, 4) + r2);
            lemma_p_u32(yaw_bits, r2);
            lemma_p_u32(pitch_bits, r3);
            assert(r3 =~= bool_byte(on_ground) + empty);
            lemma_p_bool(on_ground, empty);
        },
        _ => {
            assert(false);
        },
    }
}

proof fn lemma_rt_setplayeronground(p: IncomingPacketView)
    requires
        p.wf(),
        p is SetPlayerOnGround,
    ensures
        spec_decode_body(p.spec_sent_state(), p.spec_id(), spec_encode_body(p)) == Ok::<
            IncomingPacketView,
            ReadError,
        >(p),
{
    let b = spec_encode_body(p);
    let empty = Seq::<u8>::empty();
    match p {
        IncomingPacketView::SetPlayerOnGround { on_ground } => {
            assert(b =~= bool_byte(on_ground) + empty);
            lemma_p_bool(on_ground, empty);
        },
        _ => {
            assert(false);
        },
    }
}

proof fn lemma_rt_playercommand(p: IncomingPacketView)
    requires
        p.wf(),
        p is PlayerCommand,
    ensures
        spec_decode_body(p.spec_sent_state(), p.spec_id(), spec_encode_body(p)) == Ok::<
            IncomingPacketView,
            ReadError,
        >(p),
{
    let b = spec_encode_body(p);
    let empty = Seq::<u8>::empty();
    match p {
        IncomingPacketView::PlayerCommand { entity_id, action_id, jump_boost } => {
            let r3 = varint_bytes(jump_boost);
            let r2 = varint_bytes(action_id) + r3;
            assert(b =~= varint_bytes(entity_id) + r2);
            lemma_p_varint(entity_id, r2);
            lemma_p_varint(action_id, r3);
            assert(r3 =~= varint_bytes(jump_boost) + empty);
            lemma_p_varint(jump_boost, empty);
        },
        _ => {
            assert(false);
        },
    }
}

proof fn lemma_rt_swingarm(p: IncomingPacketView)
    requires
        p.wf(),
        p is SwingArm,
    ensures
        spec_decode_body(p.spec_sent_state(), p.spec_id(), spec_encode_body(p)) == Ok::<
            IncomingPacketView,
            ReadError,
        >(p),
{
    let b = spec_encode_body(p);
    let empty = Seq::<u8>::empty();
    match p {
        IncomingPacketView::SwingArm { hand } => {
            assert(b =~= varint_bytes(hand) + empty);
            lemma_p_varint(hand, empty);
        },
        _ => {
            assert(false);
        },
    }
}

proof fn lemma_rt_useitem(p: IncomingPacketView)
    requires
        p.wf(),
        p is UseItem,
    ensures
        spec_decode_body(p.spec_sent_state(), p.spec_id(), spec_encode_body(p)) == Ok::<
            IncomingPacketView,
            ReadError,
        >(p),
{
    let b = spec_encode_body(p);
    let empty = Seq::<u8>::empty();
    match p {
        IncomingPacketView::UseItem { hand, sequence } => {
            let r2 = varint_bytes(sequence);
            assert(b =~= varint_bytes(hand) + r2);
            lemma_p_varint(hand, r2);
            assert(r2 =~= varint_bytes(sequence) + empty);
            lemma_p_varint(sequence, empty);
        },
        _ => {
            assert(false);
        },
    }
}

/// Body-level round trip: decoding the canonical body of a modeled packet
/// under its own state and opcode yields the packet back.
pub proof fn lemma_decode_body_roundtrip(p: IncomingPacketView)
    requires
        p.wf(),
        !(p is Unknown),
    ensures
        spec_decode_body(p.spec_sent_state(), p.spec_id(), spec_encode_body(p)) == Ok::<
            IncomingPacketView,
            ReadError,
        >(p),
{
    match p {
        IncomingPacketView::Unknown { .. } => {},
        IncomingPacketView::Handshake { .. } => lemma_rt_handshake(p),
        IncomingPacketView::StatusRequest => {},
        IncomingPacketView::PingRequest { .. } => lemma_rt_pingrequest(p),
        IncomingPacketView::LoginStart { .. } => lemma_rt_loginstart(p),
        IncomingPacketView::Interact { .. } => lemma_rt_interact(p),
        IncomingPacketView::KeepAlive { .. } => lemma_rt_keepalive(p),
        IncomingPacketView::SetPlayerPosition { .. } => lemma_rt_setplayerposition(p),
        IncomingPacketView::SetPlayerPositionAndRotation { .. } => lemma_rt_setplayerpositionandrotation(p),
        IncomingPacketView::SetPlayerRotation { .. } => lemma_rt_setplayerrotation(p),
        IncomingPacketView::SetPlayerOnGround { .. } => lemma_rt_setplayeronground(p),
        IncomingPacketView::PlayerCommand { .. } => lemma_rt_playercommand(p),
        IncomingPacketView::SwingArm { .. } => lemma_rt_swingarm(p),
        IncomingPacketView::UseItem { .. } => lemma_rt_useitem(p),
    }
}

/// Packet round trip: the frame of any modeled packet, decoded under the
/// state it is sent in, yields exactly that packet and leaves exactly the
/// bytes that followed the frame. Consequently, re-encoding what a frame
/// decodes to reproduces the frame byte for byte.
pub proof fn lemma_packet_roundtrip(state: ConnectionState, p: IncomingPacketView, rest: Seq<u8>)
    requires
        p.wf(),
        !(p is Unknown),
        state == p.spec_sent_state(),
    ensures
        spec_read_packet(state, spec_encode_packet(p) + rest) == Ok::<
            (IncomingPacketView, Seq<u8>),
            ReadError,
        >((p, rest)),
{
    let id = p.spec_id();
    let body = varint_bytes(id) + spec_encode_body(p);
    let len = body.len() as i32;
    crate::varint::lemma_varint_len(id);
    assert(spec_encode_packet(p) + rest =~= varint_bytes(len) + (body + rest));
    lemma_p_varint(len, body + rest);
    assert(len > 0);
    assert((body + rest).len() >= len);
    assert((body + rest).take(len as int) =~= body);
    assert((body + rest).skip(len as int) =~= rest);
    lemma_p_varint(id, spec_encode_body(p));
    lemma_decode_body_roundtrip(p);
}

} // verus!
