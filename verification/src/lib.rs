//! A coordination terminal for people and agents that work in the same rooms.

use vstd::prelude::*;

pub mod agent;
pub mod app;
pub mod channel;
pub mod chaperone;
pub mod chaperone_channel;
pub mod chaperone_pty;
pub mod chat_view;
pub mod clock;
pub mod config;
pub mod daemon;
pub mod emulator;
pub mod env;
pub mod events;
pub mod history;
pub mod ident;
pub mod input;
pub mod keys;
pub mod matrix_client;
pub mod number;
pub mod picker;
pub mod protocol;
pub mod pty;
pub mod room_view;
pub mod screen;
pub mod session;
pub mod session_pty;
pub mod sidebar;
pub mod startup;
pub mod terminal;
pub mod test_support;
pub mod text;
pub mod ui;
pub mod user_chaperone;
pub mod waiting;
pub mod wire;

verus! {

} // verus!
