//! Labels and storage pools of a nexus: the GPT label that a nexus writes to its
//! children, and the decisions behind the storage pool requests.

pub mod codec;
pub mod crc32;
pub mod creation;
pub mod destruction;
pub mod entry;
pub mod error;
pub mod guid;
pub mod header;
pub mod import;
pub mod jsondata;
pub mod jsonrpc;
pub mod label;
pub mod pool;
pub mod requests;
pub mod steps;
pub mod text;
pub mod utf16;
pub mod uuids;
