//! The per-player actions of a player-info-update packet and their wire
//! encodings.

use vstd::prelude::*;

use crate::reader::{be_bytes, bool_byte, write_be};
use crate::string::{string_bytes, string_fits, WriteString};
use crate::uuid::Uuid;
use crate::varint::{varint_bytes, WriteVarInt};

verus! {

/// One action of a player-info update, in wire order.
#[derive(Debug, PartialEq, Eq, Clone)]
pub enum PlayerInfoUpdateActions {
    AddPlayer {
        name: std::string::String,
        properties: Vec<(std::string::String, std::string::String, Option<std::string::String>)>,
    },
    InitializeChat { signature: Option<(Uuid, i64, Vec<u8>, Vec<u8>)> },
    UpdateGamemode { gamemode: i32 },
    UpdateListed { listed: bool },
    UpdateLatency { ping: i32 },
    UpdateDisplayName { display_name: Option<std::string::String> },
}

/// The wire bytes of one signed player property: name, value, optional
/// signature.
pub open spec fn prop_bytes(
    p: (std::string::String, std::string::String, Option<std::string::String>),
) -> Seq<u8> {
    string_bytes(p.0@) + string_bytes(p.1@) + match p.2 {
        Some(sig) => bool_byte(true) + string_bytes(sig@),
        None => bool_byte(false),
    }
}

/// The wire bytes of a property list, in order.
pub open spec fn props_bytes(
    ps: Seq<(std::string::String, std::string::String, Option<std::string::String>)>,
) -> Seq<u8>
    decreases ps.len(),
{
    if ps.len() == 0 {
        Seq::empty()
    } else {
        props_bytes(ps.drop_last()) + prop_bytes(ps.last())
    }
}

/// Whether every string of a property list fits its length prefix.
pub open spec fn props_fit(
    ps: Seq<(std::string::String, std::string::String, Option<std::string::String>)>,
) -> bool {
    forall|i: int|
        0 <= i < ps.len() ==> string_fits(#[trigger] ps[i].0@) && string_fits(ps[i].1@) && (
        ps[i].2 is Some ==> string_fits(ps[i].2->0@))
}

/// The wire bytes of one action.
pub open spec fn spec_action_bytes(a: PlayerInfoUpdateActions) -> Seq<u8> {
    match a {
        PlayerInfoUpdateActions::AddPlayer { name, properties } => string_bytes(name@)
            + varint_bytes(properties@.len() as i32) + props_bytes(properties@),
        PlayerInfoUpdateActions::InitializeChat { signature } => match signature {
            Some(sig) => bool_byte(true) + be_bytes(sig.0.0 as nat, 16) + be_bytes(
                (sig.1 as u64) as nat,
                8,
            ) + varint_bytes(sig.2@.len() as i32) + sig.2@ + varint_bytes(sig.3@.len() as i32)
                + sig.3@,
            None => bool_byte(false),
        },
        PlayerInfoUpdateActions::UpdateGamemode { gamemode } => varint_bytes(gamemode),
        PlayerInfoUpdateActions::UpdateListed { listed } => bool_byte(listed),
        PlayerInfoUpdateActions::UpdateLatency { ping } => varint_bytes(ping),
        PlayerInfoUpdateActions::UpdateDisplayName { display_name } => match display_name {
            Some(dn) => bool_byte(true) + string_bytes(dn@),
            None => bool_byte(false),
        },
    }
}

/// Whether an action's variable-length parts fit their length prefixes.
pub open spec fn action_wf(a: PlayerInfoUpdateActions) -> bool {
    match a {
        PlayerInfoUpdateActions::AddPlayer { name, properties } => string_fits(name@)
            && properties@.len() <= 0x7FFFFFFF && props_fit(properties@),
        PlayerInfoUpdateActions::InitializeChat { signature } => match signature {
            Some(sig) => sig.2@.len() <= 0x7FFFFFFF && sig.3@.len() <= 0x7FFFFFFF,
            None => true,
        },
        PlayerInfoUpdateActions::UpdateDisplayName { display_name } => match display_name {
            Some(dn) => string_fits(dn@),
            None => true,
        },
        _ => true,
    }
}

impl PlayerInfoUpdateActions {
    /// The wire bytes of this action.
    pub fn to_bytes(&self) -> (r: Vec<u8>)
        requires
            action_wf(*self),
        ensures
            r@ == spec_action_bytes(*self),
    {
        let mut d: Vec<u8> = Vec::new();
        match self {
            PlayerInfoUpdateActions::AddPlayer { name, properties } => {
                d.write_string(name.as_str());
                d.write_varint(properties.len() as i32);
                let ghost pre = d@;
                let mut i: usize = 0;
                proof {
                    assert(properties@.take(0) =~= Seq::empty());
                    assert(d@ =~= pre + props_bytes(properties@.take(0)));
                }
                while i < properties.len()
                    invariant
                        i <= properties@.len(),
                        props_fit(properties@),
                        d@ == pre + props_bytes(properties@.take(i as int)),
                    decreases properties@.len() - i,
                {
                    proof {
                        assert(properties@.take(i + 1).drop_last() =~= properties@.take(i as int));
                        assert(properties@.take(i + 1).last() == properties@[i as int]);
                    }
                    let p = &properties[i];
                    d.write_string(p.0.as_str());
                    d.write_string(p.1.as_str());
                    match &p.2 {
                        Some(sig) => {
                            d.push(1);
                            d.write_string(sig.as_str());
                        },
                        None => {
                            d.push(0);
                        },
                    }
                    proof {
                        assert(d@ =~= pre + props_bytes(properties@.take(i + 1)));
                    }
                    i = i + 1;
                }
                proof {
                    assert(properties@.take(properties@.len() as int) =~= properties@);
                    assert(d@ =~= spec_action_bytes(*self));
                }
            },
            PlayerInfoUpdateActions::InitializeChat { signature } => {
                match signature {
                    Some(sig) => {
                        d.push(1);
                        write_be(&mut d, sig.0.0, 16);
                        write_be(&mut d, (sig.1 as u64) as u128, 8);
                        d.write_varint(sig.2.len() as i32);
                        d.extend_from_slice(sig.2.as_slice());
                        d.write_varint(sig.3.len() as i32);
                        d.extend_from_slice(sig.3.as_slice());
                    },
                    None => {
                        d.push(0);
                    },
                }
                proof {
                    assert(d@ =~= spec_action_bytes(*self));
                }
            },
            PlayerInfoUpdateActions::UpdateGamemode { gamemode } => {
                d.write_varint(*gamemode);
            },
            PlayerInfoUpdateActions::UpdateListed { listed } => {
                d.push(
                    if *listed {
                        1
                    } else {
                        0
                    },
                );
                proof {
                    assert(d@ =~= spec_action_bytes(*self));
                }
            },
            PlayerInfoUpdateActions::UpdateLatency { ping } => {
                d.write_varint(*ping);
            },
            PlayerInfoUpdateActions::UpdateDisplayName { display_name } => {
                match display_name {
                    Some(dn) => {
                        d.push(1);
                        d.write_string(dn.as_str());
                    },
                    None => {
                        d.push(0);
                    },
                }
                proof {
                    assert(d@ =~= spec_action_bytes(*self));
                }
            },
        }
        d
    }
}

} // verus!
