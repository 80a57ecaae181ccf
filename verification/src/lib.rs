pub mod dspfs;
pub mod server;
pub mod error;
pub mod file;
pub mod filetree;
pub mod global_store;
pub mod group;
pub mod hash;
pub mod message;
pub mod stream;
pub mod user;
