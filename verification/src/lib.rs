//! Varde's shell logic: notifications, the status-notifier tray, network and
//! other status parsers, and the command line.
use vstd::prelude::*;

pub mod audio;
pub mod battery;
pub mod bluetooth;
pub mod clock;
pub mod command;
pub mod hyprland;
pub mod launcher;
pub mod network;
pub mod notifications;
pub mod output;
pub mod privacy;
pub mod text;
pub mod tray;

verus! {

} // verus!
