//! What each command of the store decides, apart from reading and writing
//! files.

pub mod activate;
pub mod import;
pub mod label;
pub mod list;
pub mod mv;
pub mod prune;
pub mod remove;
