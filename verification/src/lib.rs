//! The logic of an SSH tunnel manager that runs each tunnel as a systemd
//! user unit: reading a unit's state, turning it into a tunnel status and a
//! message a user can act on, the `systemctl`/`journalctl` invocations and
//! what their results mean, the command-line table, and the profile editor's
//! rules (ids derived from names, unique names, forwards, the merged and
//! ordered profile list).
use vstd::prelude::*;

pub mod command;
pub mod failure;
pub mod json;
pub mod listing;
pub mod number;
pub mod order;
pub mod profile_form;
pub mod runtime;
pub mod systemd;
pub mod text;

pub use failure::{friendly_failure_message, host_key_failure_message};
pub use systemd::{blank_as_default, map_systemd_status, TunnelStatus, UnitProps};

verus! {

} // verus!
