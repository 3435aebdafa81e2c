use vstd::prelude::*;

verus! {

/// The protocol phase of one connection. It decides which packet ids are
/// legal and how their bodies are laid out. `Disconnect` is the terminal
/// sentinel: a connection carrying it is being torn down.
#[derive(Debug, Clone, Copy, PartialEq, Eq, Structural)]
pub enum ConnectionState {
    /// This state indicates that the connection should be closed.
    Disconnect,
    Handshake,
    Status,
    Login,
    Play,
}

impl Default for ConnectionState {
    /// Every connection starts in the handshake phase.
    fn default() -> (r: Self)
        ensures
            r == ConnectionState::Handshake,
    {
        ConnectionState::Handshake
    }
}

} // verus!
