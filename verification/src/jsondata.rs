//! Arguments and results of the json-rpc methods.

use vstd::prelude::*;

verus! {

/// Arguments of `create_or_import_pool`.
#[derive(Debug, PartialEq, Eq)]
pub struct CreateOrImportPoolArgs {
    pub name: String,
    pub disks: Vec<String>,
    /// block size of the disk, the default is 4096
    pub block_size: Option<u32>,
}

/// Arguments of `destroy_pool`.
#[derive(Debug, PartialEq, Eq)]
pub struct DestroyPoolArgs {
    pub name: String,
}

/// A pool as `list_pools` reports it.
#[derive(Debug, PartialEq, Eq)]
pub struct Pool {
    pub name: String,
    pub disks: Vec<String>,
    pub state: String,
    /// capacity in bytes
    pub capacity: u64,
    /// bytes in use
    pub used: u64,
}

/// A reported pool with its texts as sequences of characters.
#[verifier::ext_equal]
pub struct PoolReport {
    pub name: Seq<char>,
    pub disks: Seq<Seq<char>>,
    pub state: Seq<char>,
    pub capacity: u64,
    pub used: u64,
}

impl View for Pool {
    type V = PoolReport;

    open spec fn view(&self) -> PoolReport {
        PoolReport {
            name: self.name@,
            disks: self.disks@.map_values(|d: String| d@),
            state: self.state@,
            capacity: self.capacity,
            used: self.used,
        }
    }
}

} // verus!
