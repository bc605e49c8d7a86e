//! The host picker: its popup, its menu, and the hooks that turn a native
//! create inside a mirror into the create the user meant.

pub mod follow;
pub mod host;
pub mod intercept;
pub mod key;
pub mod menu;
pub mod popup;
