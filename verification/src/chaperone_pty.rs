//! What is said to a chaperone over the socket of one of its terminals.

use vstd::prelude::*;

use crate::protocol::{ClientMessage, ClientMessageModel};
use crate::wire::Wire;

verus! {

/// The message that carries input. A socket has one terminal, so its number does not matter.
pub fn input_message(data: &[u8]) -> (r: ClientMessage)
    ensures
        r.model() == (ClientMessageModel::Input { pty_id: 0, data: data@ }),
{
    ClientMessage::Input { pty_id: 0, data: vstd::slice::slice_to_vec(data) }
}

/// The message that asks for a size.
pub fn resize_message(rows: u16, cols: u16) -> (r: ClientMessage)
    ensures
        r.model() == (ClientMessageModel::Resize { pty_id: 0, rows: rows as nat, cols: cols as nat }),
{
    ClientMessage::Resize { pty_id: 0, rows, cols }
}

} // verus!
