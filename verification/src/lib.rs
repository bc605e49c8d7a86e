//! Decision logic of a session mirror for herdr: who closed what, where a new
//! pane starts, how the host picker behaves, and how a remote socket is
//! reached through an exec channel.

pub mod bytes;
pub mod closes;
pub mod cwd_policy;
pub mod json;
pub mod listing;
pub mod pick;
pub mod search;
pub mod ssh_relay;
pub mod text;
pub mod toml_doc;
