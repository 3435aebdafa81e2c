//! The server configuration: the listen port and the status payload shown in
//! the server list. Loading it from disk and serialising the status payload
//! to JSON happen outside the library; the tick loop receives the finished
//! JSON text.

use vstd::prelude::*;

verus! {

pub const PROTOCOL_VERSION: u16 = 763;

#[derive(Debug)]
pub struct Config {
    pub port: u16,
    pub status: Status,
}

impl Default for Config {
    fn default() -> (r: Self)
        ensures
            r.port == 25565,
    {
        Config { port: 25565, status: Status::default() }
    }
}

#[allow(non_snake_case)]
#[derive(Debug)]
pub struct Status {
    pub enforcesSecureChat: bool,
    pub previewsChat: bool,
    pub favicon: Option<std::string::String>,
    pub version: Version,
    pub players: Players,
    pub description: Description,
}

impl Default for Status {
    fn default() -> (r: Self)
        ensures
            !r.enforcesSecureChat,
            !r.previewsChat,
            r.favicon is None,
    {
        Status {
            enforcesSecureChat: false,
            previewsChat: false,
            favicon: None,
            version: Version::default(),
            players: Players::default(),
            description: Description::default(),
        }
    }
}

#[derive(Debug, Clone)]
pub struct Version {
    pub name: std::string::String,
    pub protocol: u16,
}

impl Default for Version {
    fn default() -> (r: Self)
        ensures
            r.protocol == PROTOCOL_VERSION,
    {
        Version {
            name: "Unnamed Server Software in Rust 1.20.1".to_string(),
            protocol: PROTOCOL_VERSION,
        }
    }
}

#[derive(Debug, Clone)]
pub struct Players {
    pub max: i32,
    pub online: i32,
    pub sample: Option<Vec<Player>>,
}

impl Default for Players {
    fn default() -> (r: Self)
        ensures
            r.max == 20,
            r.online == 0,
            r.sample is None,
    {
        Players { max: 20, online: 0, sample: None }
    }
}

#[derive(Debug, Clone)]
pub struct Player {
    pub name: std::string::String,
    pub id: std::string::String,
}

#[derive(Debug)]
pub struct Description {
    pub text: std::string::String,
    pub bold: Option<bool>,
    pub italic: Option<bool>,
    pub underlined: Option<bool>,
    pub strikethrough: Option<bool>,
    pub obfuscated: Option<bool>,
    pub font: Option<std::string::String>,
    pub color: Option<std::string::String>,
    pub extra: Option<Box<Description>>,
}

impl Default for Description {
    fn default() -> (r: Self)
        ensures
            r.bold is None,
            r.italic is None,
            r.extra is None,
    {
        Description {
            text: "A Minecraft Server".to_string(),
            bold: None,
            italic: None,
            underlined: None,
            strikethrough: None,
            obfuscated: None,
            font: None,
            color: None,
            extra: None,
        }
    }
}

} // verus!
