//! Per-audiobook podcast feed synthesis: folder resolution by bracketed
//! identifier, classification of a folder's files, and feed construction.
pub mod text;
pub mod listing;
pub mod feed;
