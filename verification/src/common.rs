//! Pieces shared by every command.

pub mod index;
pub mod init;
pub mod text;
pub mod utils;
