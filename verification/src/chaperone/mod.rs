//! The chaperone: a process that keeps the terminals of one person or agent.

use vstd::prelude::*;

pub mod config;
pub mod control;
pub mod protocol;
pub mod pty;
pub mod pty_socket;

pub use config::{ChaperoneConfig, ChaperoneMode};
pub use control::Chaperone;
pub use pty::{ManagedPty, PtyInfo, PtySpawnConfig};
pub use pty_socket::{PtyInput, RelayState};

verus! {

} // verus!
