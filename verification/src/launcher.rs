//! The launcher's sources: the clipboard history and the command line that
//! opens the launcher.
pub mod clipboard;
pub mod command;
pub mod list;
pub mod preview;
pub mod search;
pub mod source;
