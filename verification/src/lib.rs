//! Verified core of a screenshot and colour picker tool: the payload
//! formats, crop geometry, window selection, shortcut parsing and the
//! session decisions of the resident daemon.
pub mod payload;
pub mod crop;
pub mod text;
pub mod windows;
pub mod accel;
pub mod imaging;
pub mod session;
pub mod settings;
pub mod daemon;
