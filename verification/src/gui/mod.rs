//! State shown by the looper's window.
pub mod app_state;
