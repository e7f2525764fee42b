//! What the user interface shows, and what a click asks for.

pub mod captions;
pub mod layout;
pub mod preferences;
pub mod setup;
pub mod timeline;
pub mod wallpaper;
