//! Verified core of a browser for chat-export archives: date normalisation,
//! the import plan that turns exported groups and messages into rows, and the
//! query texts and media paths the viewer uses.

pub mod text;
pub mod datetime;
pub mod models;
pub mod takeout;
pub mod queries;
