//! A small note box: notes live as files in one directory, and a flat index
//! file maps stable 1-based ids to their file names.

pub mod bookmarks;
pub mod common;
pub mod folders;
pub mod notes;
