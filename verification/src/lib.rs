//! Timestamped backup archives: how they are named, how a name is read back,
//! and how the newest archive among a set of file names is found.

pub mod backup;
pub mod compression;
pub mod naming;
pub mod stamp;
pub mod text;
pub mod timestamp;
