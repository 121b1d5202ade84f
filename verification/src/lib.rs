//! Verified core of a small desktop shell: a window-command layer, a startup
//! configuration check, and the JSON wire format of the one backend call the
//! shell relays for its embedded UI.

pub mod config;
pub mod json;
pub mod relay;
pub mod window;
