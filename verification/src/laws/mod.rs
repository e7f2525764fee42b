//! What the operations are for, stated of what goes in and what comes out.

pub mod answers;
pub mod contents;
pub mod desktop;
pub mod documents;
pub mod images;
pub mod lists;
pub mod markup;
pub mod offers;
pub mod paths;
pub mod records;
pub mod replies;
pub mod requests;
pub mod session;
pub mod settings;
pub mod texts;
pub mod updates;
pub mod views;
