//! Server side of a real-time binary network protocol for a multiplayer
//! voxel-world game client: the variable-length integer and packet-framing
//! codec, the per-connection protocol state machine, the paletted bit-packing
//! codec for chunk block data, and the authoritative tick loop that routes
//! decoded packets to outgoing packets.

pub mod block_states;
pub mod chunk;
pub mod config;
pub mod dimension;
pub mod gamemode;
pub mod outgoing;
pub mod packets;
pub mod player_info;
pub mod position;
pub mod reader;
pub mod server;
pub mod state;
pub mod string;
pub mod util;
pub mod uuid;
pub mod varint;
