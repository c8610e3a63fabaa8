//! The terminal dashboard's state and decisions; drawing is left to the
//! front end.
pub mod app;
pub mod keys;
pub mod logs;
pub mod status;
