//! The logic of a remote file system: a client that mounts a directory kept on
//! a server, and the server that keeps it.

pub mod api;
pub mod bytes;
pub mod cache;
pub mod client;
pub mod clock;
pub mod daemon;
pub mod disk;
pub mod dokany;
pub mod errno;
pub mod fuse;
pub mod handlers;
pub mod http;
pub mod inode_table;
pub mod inodes;
pub mod native;
pub mod numeral;
pub mod paths;
pub mod plain_volume;
pub mod range;
pub mod remote;
pub mod remote_api;
pub mod reply;
pub mod rooted;
pub mod session;
pub mod storage;
pub mod table;
pub mod text;
pub mod wide;
pub mod winfsp;
