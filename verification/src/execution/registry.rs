//! The command table of the single-key dispatcher.

use vstd::prelude::*;

use crate::commands::registry::bytes_eq;

verus! {

#[derive(Debug, Clone, Copy, PartialEq, Eq, Structural)]
pub enum CommandId {
    Ping,
    /// SET (the name `Set` is taken by the prover's set type).
    SetKey,
    Get,
    Del,
    Ttl,
}

/// What the table says of a command.
#[derive(Debug, Clone, Copy, PartialEq, Eq, Structural)]
pub struct CommandMeta {
    pub id: CommandId,
    /// The fewest arguments it takes.
    pub min: usize,
    /// The most arguments it takes, if there is a limit.
    pub max: Option<usize>,
    /// Whether it writes.
    pub write: bool,
}

/// The table entry for a command name, matched byte for byte.
pub open spec fn table_entry(name: Seq<u8>) -> Option<CommandMeta> {
    if name == seq![80u8, 73, 78, 71] {
        // PING
        Some(CommandMeta { id: CommandId::Ping, min: 1, max: Some(2), write: false })
    } else if name == seq![71u8, 69, 84] {
        // GET
        Some(CommandMeta { id: CommandId::Get, min: 1, max: Some(2), write: false })
    } else if name == seq![83u8, 69, 84] {
        // SET
        Some(CommandMeta { id: CommandId::SetKey, min: 2, max: Some(8), write: true })
    } else if name == seq![68u8, 69, 76] {
        // DEL
        Some(CommandMeta { id: CommandId::Del, min: 1, max: None, write: true })
    } else if name == seq![84u8, 84, 76] {
        // TTL
        Some(CommandMeta { id: CommandId::Ttl, min: 1, max: Some(1), write: false })
    } else {
        None
    }
}

/// The table entry for `name`, if it names a command.
pub fn lookup(name: &[u8]) -> (r: Option<CommandMeta>)
    ensures
        r == table_entry(name@),
{
    match name.len() {
        4 => {
            // PING
            let word: [u8; 4] = [80, 73, 78, 71];
            if bytes_eq(name, &word) {
                return Some(CommandMeta { id: CommandId::Ping, min: 1, max: Some(2), write: false });
            }
            None
        },
        3 => {
            // GET
            let word: [u8; 3] = [71, 69, 84];
            if bytes_eq(name, &word) {
                return Some(CommandMeta { id: CommandId::Get, min: 1, max: Some(2), write: false });
            }
            // SET
            let word: [u8; 3] = [83, 69, 84];
            if bytes_eq(name, &word) {
                return Some(CommandMeta { id: CommandId::SetKey, min: 2, max: Some(8), write: true });
            }
            // DEL
            let word: [u8; 3] = [68, 69, 76];
            if bytes_eq(name, &word) {
                return Some(CommandMeta { id: CommandId::Del, min: 1, max: None, write: true });
            }
            // TTL
            let word: [u8; 3] = [84, 84, 76];
            if bytes_eq(name, &word) {
                return Some(CommandMeta { id: CommandId::Ttl, min: 1, max: Some(1), write: false });
            }
            None
        },
        _ => None,
    }
}

} // verus!
