//! The notification server: the store of live notifications, the snapshot the
//! views draw, the popup queue, raw-image handling and the daemon's decisions.
pub mod center;
pub mod body;
pub mod daemon;
pub mod image;
pub mod model;
pub mod popups;
pub mod state;
pub mod time;
