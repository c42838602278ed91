//! The StatusNotifier tray: item identities, icons and the watcher's bookkeeping.
pub mod model;
pub mod watcher;
