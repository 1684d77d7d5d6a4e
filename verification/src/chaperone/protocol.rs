//! Messages on a chaperone's control socket.
//!
//! They are framed as the messages of the session daemon are.

use vstd::prelude::*;
use vstd::string::*;

use crate::protocol::{decoded, frame, EncodeError};
use crate::wire::{at, le_bytes, DecodeError, Wire};
use crate::wire::lemma_choice;

verus! {

/// A message on the control socket.
#[derive(Debug, Clone)]
pub enum ControlMessage {
    /// To the chaperone: start a terminal.
    SpawnPty {
        /// The room that the terminal belongs to.
        room_id: String,
        /// The directory to run in.
        cwd: Option<String>,
        /// The command to run; the shell if there is none.
        command: Option<String>,
        /// The height of the terminal.
        rows: u16,
        /// The width of the terminal.
        cols: u16,
    },
    /// To the chaperone: stop a terminal.
    KillPty {
        /// The terminal to stop.
        pty_id: String,
    },
    /// From the chaperone: it takes orders now.
    Ready,
    /// From the chaperone: a terminal is there.
    PtyAttached {
        /// The terminal.
        pty_id: String,
        /// The room that it belongs to.
        room_id: String,
        /// The socket for its input and output.
        socket: String,
    },
    /// From the chaperone: a terminal is gone.
    PtyDetached {
        /// The terminal.
        pty_id: String,
        /// The room that it belonged to.
        room_id: String,
    },
}

/// A control message, as a value.
pub enum ControlMessageModel {
    SpawnPty {
        room_id: Seq<char>,
        cwd: Option<Seq<char>>,
        command: Option<Seq<char>>,
        rows: nat,
        cols: nat,
    },
    KillPty { pty_id: Seq<char> },
    Ready,
    PtyAttached { pty_id: Seq<char>, room_id: Seq<char>, socket: Seq<char> },
    PtyDetached { pty_id: Seq<char>, room_id: Seq<char> },
}

/// The number of a control message.
pub open spec fn control_number(m: ControlMessageModel) -> nat {
    match m {
        ControlMessageModel::SpawnPty { .. } => 0,
        ControlMessageModel::KillPty { .. } => 1,
        ControlMessageModel::Ready => 2,
        ControlMessageModel::PtyAttached { .. } => 3,
        ControlMessageModel::PtyDetached { .. } => 4,
    }
}

/// The byte form of what a control message carries.
pub open spec fn control_body(m: ControlMessageModel) -> Seq<u8> {
    match m {
        ControlMessageModel::SpawnPty { room_id, cwd, command, rows, cols } => <(
            String,
            (Option<String>, (Option<String>, (u16, u16))),
        )>::wire((room_id, (cwd, (command, (rows, cols))))),
        ControlMessageModel::KillPty { pty_id } => String::wire(pty_id),
        ControlMessageModel::Ready => Seq::empty(),
        ControlMessageModel::PtyAttached { pty_id, room_id, socket } => <(String, (String, String))>::wire(
            (pty_id, (room_id, socket)),
        ),
        ControlMessageModel::PtyDetached { pty_id, room_id } => <(String, String)>::wire(
            (pty_id, room_id),
        ),
    }
}

impl Wire for ControlMessage {
    type Model = ControlMessageModel;

    open spec fn model(&self) -> ControlMessageModel {
        match self {
            ControlMessage::SpawnPty { room_id, cwd, command, rows, cols } => ControlMessageModel::SpawnPty {
                room_id: room_id@,
                cwd: cwd.model(),
                command: command.model(),
                rows: *rows as nat,
                cols: *cols as nat,
            },
            ControlMessage::KillPty { pty_id } => ControlMessageModel::KillPty { pty_id: pty_id@ },
            ControlMessage::Ready => ControlMessageModel::Ready,
            ControlMessage::PtyAttached { pty_id, room_id, socket } => ControlMessageModel::PtyAttached {
                pty_id: pty_id@,
                room_id: room_id@,
                socket: socket@,
            },
            ControlMessage::PtyDetached { pty_id, room_id } => ControlMessageModel::PtyDetached {
                pty_id: pty_id@,
                room_id: room_id@,
            },
        }
    }

    open spec fn fits(m: ControlMessageModel) -> bool {
        match m {
            ControlMessageModel::SpawnPty { room_id, cwd, command, rows, cols } => <(
                String,
                (Option<String>, (Option<String>, (u16, u16))),
            )>::fits((room_id, (cwd, (command, (rows, cols))))),
            ControlMessageModel::KillPty { pty_id } => String::fits(pty_id),
            ControlMessageModel::Ready => true,
            ControlMessageModel::PtyAttached { pty_id, room_id, socket } => <(
                String,
                (String, String),
            )>::fits((pty_id, (room_id, socket))),
            ControlMessageModel::PtyDetached { pty_id, room_id } => <(String, String)>::fits(
                (pty_id, room_id),
            ),
        }
    }

    open spec fn wire(m: ControlMessageModel) -> Seq<u8> {
        le_bytes(control_number(m), 4) + control_body(m)
    }

    proof fn wire_unique(a: ControlMessageModel, b: ControlMessageModel, buf: Seq<u8>, pos: int) {
        lemma_choice(control_number(a), control_body(a), buf, pos);
        lemma_choice(control_number(b), control_body(b), buf, pos);
        <u32 as Wire>::wire_unique(control_number(a), control_number(b), buf, pos);
        match a {
            ControlMessageModel::SpawnPty { room_id, cwd, command, rows, cols } => {
                <(String, (Option<String>, (Option<String>, (u16, u16))))>::wire_unique(
                    (room_id, (cwd, (command, (rows, cols)))),
                    (
                        b->SpawnPty_room_id,
                        (b->SpawnPty_cwd, (b->SpawnPty_command, (b->SpawnPty_rows, b->SpawnPty_cols))),
                    ),
                    buf,
                    pos + 4,
                );
            },
            ControlMessageModel::KillPty { pty_id } => {
                String::wire_unique(pty_id, b->KillPty_pty_id, buf, pos + 4);
            },
            ControlMessageModel::Ready => {},
            ControlMessageModel::PtyAttached { pty_id, room_id, socket } => {
                <(String, (String, String))>::wire_unique(
                    (pty_id, (room_id, socket)),
                    (b->PtyAttached_pty_id, (b->PtyAttached_room_id, b->PtyAttached_socket)),
                    buf,
                    pos + 4,
                );
            },
            ControlMessageModel::PtyDetached { pty_id, room_id } => {
                <(String, String)>::wire_unique(
                    (pty_id, room_id),
                    (b->PtyDetached_pty_id, b->PtyDetached_room_id),
                    buf,
                    pos + 4,
                );
            },
        }
    }

    fn put(&self, out: &mut Vec<u8>) {
        match self {
            ControlMessage::SpawnPty { room_id, cwd, command, rows, cols } => {
                0u32.put(out);
                room_id.put(out);
                cwd.put(out);
                command.put(out);
                rows.put(out);
                cols.put(out);
            },
            ControlMessage::KillPty { pty_id } => {
                1u32.put(out);
                pty_id.put(out);
            },
            ControlMessage::Ready => {
                2u32.put(out);
            },
            ControlMessage::PtyAttached { pty_id, room_id, socket } => {
                3u32.put(out);
                pty_id.put(out);
                room_id.put(out);
                socket.put(out);
            },
            ControlMessage::PtyDetached { pty_id, room_id } => {
                4u32.put(out);
                pty_id.put(out);
                room_id.put(out);
            },
        }
        assert(out@ == old(out)@ + Self::wire(self.model()));
    }

    fn get(buf: &[u8], pos: usize) -> (r: Result<(Self, usize), DecodeError>) {
        proof {
            assert forall|m: ControlMessageModel| #[trigger] Self::fits(m) && at(buf@, pos as int, Self::wire(m)) implies at(
                buf@,
                pos as int,
                <u32 as Wire>::wire(control_number(m)),
            ) && at(buf@, pos + 4, control_body(m)) by {
                lemma_choice(control_number(m), control_body(m), buf@, pos as int);
            }
        }
        let (number, next) = match u32::get(buf, pos) {
            Ok(x) => x,
            Err(e) => {
                return Err(e);
            },
        };
        proof {
            lemma_choice(number as nat, Seq::empty(), buf@, pos as int);
            assert(buf@.subrange(pos + 4, pos + 4) == Seq::<u8>::empty());
            assert forall|m: ControlMessageModel| #[trigger] Self::fits(m) && at(buf@, pos as int, Self::wire(m)) implies control_number(m)
                == number by {
                <u32 as Wire>::wire_unique(control_number(m), number as nat, buf@, pos as int);
            }
        }
        let (msg, end) = match number {
            0 => match <(String, (Option<String>, (Option<String>, (u16, u16))))>::get(buf, next) {
                Ok(((room_id, (cwd, (command, (rows, cols)))), end)) => (
                    ControlMessage::SpawnPty { room_id, cwd, command, rows, cols },
                    end,
                ),
                Err(e) => {
                    return Err(e);
                },
            },
            1 => match String::get(buf, next) {
                Ok((pty_id, end)) => (ControlMessage::KillPty { pty_id }, end),
                Err(e) => {
                    return Err(e);
                },
            },
            2 => (ControlMessage::Ready, next),
            3 => match <(String, (String, String))>::get(buf, next) {
                Ok(((pty_id, (room_id, socket)), end)) => (
                    ControlMessage::PtyAttached { pty_id, room_id, socket },
                    end,
                ),
                Err(e) => {
                    return Err(e);
                },
            },
            4 => match <(String, String)>::get(buf, next) {
                Ok(((pty_id, room_id), end)) => (ControlMessage::PtyDetached { pty_id, room_id }, end),
                Err(e) => {
                    return Err(e);
                },
            },
            _ => {
                return Err(DecodeError::Malformed);
            },
        };
        proof {
            lemma_choice(control_number(msg.model()), control_body(msg.model()), buf@, pos as int);
        }
        Ok((msg, end))
    }
}

/// Writes a control message with its length before it.
pub fn encode(msg: &ControlMessage) -> (r: Result<Vec<u8>, EncodeError>)
    ensures
        r is Ok,
        ControlMessage::fits(msg.model()),
        r->Ok_0@ == frame(ControlMessage::wire(msg.model())),
{
    crate::protocol::encode(msg)
}

/// Reads a control message from the bytes after its length.
pub fn decode(data: &[u8]) -> (r: Result<ControlMessage, DecodeError>)
    ensures
        decoded(data@, r),
{
    crate::protocol::decode(data)
}

/// How the messages between a chaperone and those who order it stand on the wire: a number of four
/// bytes that says which message it is, and behind it what the message holds, part by part.
pub proof fn law_the_wire_form_of_control_messages(
    pty_id: Seq<char>,
    room_id: Seq<char>,
    socket: Seq<char>,
    cwd: Option<Seq<char>>,
    command: Option<Seq<char>>,
    rows: nat,
    cols: nat,
)
    ensures
        ControlMessage::wire(ControlMessageModel::SpawnPty { room_id, cwd, command, rows, cols }) == le_bytes(0, 4)
            + String::wire(room_id) + Option::<String>::wire(cwd) + Option::<String>::wire(command)
            + le_bytes(rows, 2) + le_bytes(cols, 2),
        ControlMessage::wire(ControlMessageModel::KillPty { pty_id }) == le_bytes(1, 4) + String::wire(pty_id),
        ControlMessage::wire(ControlMessageModel::Ready) == le_bytes(2, 4),
        ControlMessage::wire(ControlMessageModel::PtyAttached { pty_id, room_id, socket }) == le_bytes(3, 4)
            + String::wire(pty_id) + String::wire(room_id) + String::wire(socket),
        ControlMessage::wire(ControlMessageModel::PtyDetached { pty_id, room_id }) == le_bytes(4, 4)
            + String::wire(pty_id) + String::wire(room_id),
{
    let wire = |m: ControlMessageModel| ControlMessage::wire(m);
    assert(wire(ControlMessageModel::SpawnPty { room_id, cwd, command, rows, cols }) =~= le_bytes(0, 4)
        + String::wire(room_id) + Option::<String>::wire(cwd) + Option::<String>::wire(command) + le_bytes(
        rows,
        2,
    ) + le_bytes(cols, 2));
    assert(wire(ControlMessageModel::Ready) =~= le_bytes(2, 4));
    assert(wire(ControlMessageModel::PtyAttached { pty_id, room_id, socket }) =~= le_bytes(3, 4)
        + String::wire(pty_id) + String::wire(room_id) + String::wire(socket));
    assert(wire(ControlMessageModel::PtyDetached { pty_id, room_id }) =~= le_bytes(4, 4) + String::wire(
        pty_id,
    ) + String::wire(room_id));
}

} // verus!
