//! The chaperone of the user: how it is set up and what it answers.

use vstd::prelude::*;
use vstd::string::*;

use crate::chaperone::control::control_socket_is;
use crate::chaperone::protocol::{ControlMessage, ControlMessageModel};
use crate::wire::Wire;

verus! {

/// The configuration of the user's chaperone.
pub fn user_config() -> (r: String)
    ensures
        r@ == "name = \"user\"\nmode = \"pty-only\"\n"@,
{
    "name = \"user\"\nmode = \"pty-only\"\n".to_owned()
}

/// The control socket of the user's chaperone.
pub fn control_socket_path(data_dir: &str) -> (r: String)
    ensures
        r@ == control_socket_is(data_dir@, "user"@),
{
    crate::chaperone::control::control_socket_path(data_dir, "user")
}

/// What can be wrong with an answer of the chaperone.
#[derive(Debug, Clone, Copy, PartialEq, Eq, Structural)]
pub enum AnswerError {
    /// It should have said that it is ready.
    NotReady,
    /// It should have said where the terminal is.
    NotAttached,
}

/// Follows the first message of the chaperone.
pub fn wait_ready(first: &ControlMessage) -> (r: Result<(), AnswerError>)
    ensures
        r == if first.model() is Ready {
            Ok::<(), AnswerError>(())
        } else {
            Err(AnswerError::NotReady)
        },
{
    match first {
        ControlMessage::Ready => Ok(()),
        _ => Err(AnswerError::NotReady),
    }
}

/// The order for a terminal.
pub fn spawn_order(
    room_id: &str,
    cwd: Option<&str>,
    command: Option<&str>,
    rows: u16,
    cols: u16,
) -> (r: ControlMessage)
    ensures
        r.model() == (ControlMessageModel::SpawnPty {
            room_id: room_id@,
            cwd: match cwd {
                Some(dir) => Some(dir@),
                None => None,
            },
            command: match command {
                Some(c) => Some(c@),
                None => None,
            },
            rows: rows as nat,
            cols: cols as nat,
        }),
{
    let cwd = match cwd {
        Some(dir) => Some(dir.to_owned()),
        None => None,
    };
    let command = match command {
        Some(c) => Some(c.to_owned()),
        None => None,
    };
    ControlMessage::SpawnPty { room_id: room_id.to_owned(), cwd, command, rows, cols }
}

/// The socket of a terminal that was ordered.
pub fn spawn_pty(answer: ControlMessage) -> (r: Result<String, AnswerError>)
    ensures
        match r {
            Ok(socket) => answer.model() is PtyAttached && socket@
                == answer.model()->PtyAttached_socket,
            Err(e) => !(answer.model() is PtyAttached) && e == AnswerError::NotAttached,
        },
{
    match answer {
        ControlMessage::PtyAttached { socket, .. } => Ok(socket),
        _ => Err(AnswerError::NotAttached),
    }
}

} // verus!
