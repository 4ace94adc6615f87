//! Storage pools: a pool is an lvol store on a base bdev.

use vstd::prelude::*;

use crate::jsondata;

verus! {

/// A block device.
#[derive(Debug, PartialEq, Eq)]
pub struct Bdev {
    pub name: String,
}

impl View for Bdev {
    type V = Seq<char>;

    open spec fn view(&self) -> Seq<char> {
        self.name@
    }
}

impl Bdev {
    /// The name of the device.
    pub fn name(&self) -> (name: String)
        ensures
            name@ == self@,
            name@ == self.name@,
    {
        self.name.clone()
    }
}

/// An lvol store, with the number and the size of its clusters.
#[derive(Debug, PartialEq, Eq)]
pub struct LvolStore {
    pub name: String,
    pub cluster_size: u64,
    pub total_clusters: u64,
    pub free_clusters: u64,
}

/// A pool which comprises lvol store and underlaying bdev, as they were when the pool
/// was looked up.
#[derive(Debug, PartialEq, Eq)]
pub struct Pool {
    pub lvs: LvolStore,
    pub base_bdev: Bdev,
}

/// A pool with its texts as sequences of characters.
#[verifier::ext_equal]
pub struct PoolView {
    pub name: Seq<char>,
    pub base_bdev: Seq<char>,
    pub cluster_size: u64,
    pub total_clusters: u64,
    pub free_clusters: u64,
}

impl View for Pool {
    type V = PoolView;

    open spec fn view(&self) -> PoolView {
        PoolView {
            name: self.lvs.name@,
            base_bdev: self.base_bdev@,
            cluster_size: self.lvs.cluster_size,
            total_clusters: self.lvs.total_clusters,
            free_clusters: self.lvs.free_clusters,
        }
    }
}

impl PoolView {
    /// The size of the pool in bytes.
    pub open spec fn capacity(self) -> int {
        self.total_clusters * self.cluster_size
    }

    /// The size of the free part in bytes.
    pub open spec fn free(self) -> int {
        self.free_clusters * self.cluster_size
    }

    /// The sizes can be told: no more is free than there is, and that fits in 64 bits.
    pub open spec fn sound(self) -> bool {
        self.free() <= self.capacity() <= u64::MAX
    }

    /// What is reported of the pool.
    pub open spec fn report(self) -> jsondata::PoolReport {
        jsondata::PoolReport {
            name: self.name,
            disks: seq![self.base_bdev],
            state: "online"@,
            capacity: self.capacity() as u64,
            used: (self.capacity() - self.free()) as u64,
        }
    }
}

impl Pool {
    /// Look up existing pool by name: the lvol store of that name, if there is one, on the
    /// bdev that it was found on. The bdev can be missing if the store is being destroyed.
    pub fn lookup(lvs: Option<LvolStore>, base_bdev: Option<Bdev>) -> (pool: Option<Pool>)
        ensures
            match pool {
                Some(p) => lvs == Some(p.lvs) && base_bdev == Some(p.base_bdev),
                None => lvs is None || base_bdev is None,
            },
    {
        match (lvs, base_bdev) {
            (Some(lvs), Some(base_bdev)) => Some(Pool { lvs, base_bdev }),
            _ => None,
        }
    }

    /// Get name of the pool.
    pub fn get_name(&self) -> (name: &str)
        ensures
            name@ == self@.name,
            name@ == self.lvs.name@,
    {
        self.lvs.name.as_str()
    }

    /// Get base bdev for the pool (in our case AIO bdev).
    pub fn get_base_bdev(&self) -> (bdev: Bdev)
        ensures
            bdev@ == self@.base_bdev,
            bdev.name@ == self.base_bdev.name@,
    {
        Bdev { name: self.base_bdev.name() }
    }

    /// Get capacity of the pool in bytes.
    pub fn get_capacity(&self) -> (bytes: u64)
        requires
            self@.capacity() <= u64::MAX,
        ensures
            bytes == self@.capacity(),
            bytes == self.lvs.total_clusters * self.lvs.cluster_size,
    {
        self.lvs.total_clusters * self.lvs.cluster_size
    }

    /// Get free space in the pool in bytes.
    pub fn get_free(&self) -> (bytes: u64)
        requires
            self@.free() <= u64::MAX,
        ensures
            bytes == self@.free(),
            bytes == self.lvs.free_clusters * self.lvs.cluster_size,
    {
        self.lvs.free_clusters * self.lvs.cluster_size
    }

    /// Whether the sizes of the pool can be told.
    pub fn is_sound(&self) -> (sound: bool)
        ensures
            sound == self@.sound(),
    {
        let capacity = self.lvs.total_clusters.checked_mul(self.lvs.cluster_size);
        let free = self.lvs.free_clusters.checked_mul(self.lvs.cluster_size);
        match (capacity, free) {
            (Some(capacity), Some(free)) => free <= capacity,
            _ => false,
        }
    }
}

/// A replica on a pool, known by a handle.
#[derive(Debug, PartialEq, Eq)]
pub struct Replica {
    pub handle: usize,
    pub pool_name: String,
}

/// A replica with its texts as sequences of characters.
#[verifier::ext_equal]
pub struct ReplicaView {
    pub handle: usize,
    pub pool_name: Seq<char>,
}

impl View for Replica {
    type V = ReplicaView;

    open spec fn view(&self) -> ReplicaView {
        ReplicaView { handle: self.handle, pool_name: self.pool_name@ }
    }
}

/// The pools as they are reported, in their order.
pub fn list_pools(available: &Vec<Pool>) -> (pools: Vec<jsondata::Pool>)
    requires
        forall|i: int| 0 <= i < available@.len() ==> (#[trigger] available@[i])@.sound(),
    ensures
        pools@.len() == available@.len(),
        forall|i: int|
            0 <= i < available@.len() ==> (#[trigger] pools@[i])@ == available@[i]@.report(),
{
    let mut pools: Vec<jsondata::Pool> = Vec::new();
    let mut i: usize = 0;
    while i < available.len()
        invariant
            i <= available@.len(),
            forall|j: int| 0 <= j < available@.len() ==> (#[trigger] available@[j])@.sound(),
            pools@.len() == i,
            forall|j: int| 0 <= j < i ==> (#[trigger] pools@[j])@ == available@[j]@.report(),
        decreases available@.len() - i,
    {
        let pool = &available[i];
        let mut disks: Vec<String> = Vec::new();
        disks.push(pool.get_base_bdev().name());
        assert(available@[i as int]@.sound());
        let entry = jsondata::Pool {
            name: pool.get_name().to_owned(),
            disks,
            state: "online".to_owned(),
            capacity: pool.get_capacity(),
            used: pool.get_capacity() - pool.get_free(),
        };
        assert(entry@ =~= pool@.report());
        pools.push(entry);
        i += 1;
    }
    pools
}

/// A request for the next pool, which is named by the address of its record.
#[derive(Debug, Clone, Copy, PartialEq, Eq, Structural)]
pub enum PoolsQuery {
    /// the first of all pools
    First,
    /// the one after the given one
    Next(usize),
}

/// Iterator over available storage pools.
#[derive(Debug, Default, PartialEq, Eq)]
pub struct PoolsIter {
    lvs_bdev_ptr: Option<usize>,
}

/// The address of the record that was found last, 0 if there were no more.
#[verifier::ext_equal]
pub struct PoolsIterView {
    pub lvs_bdev_ptr: Option<usize>,
}

impl View for PoolsIter {
    type V = PoolsIterView;

    closed spec fn view(&self) -> PoolsIterView {
        PoolsIterView { lvs_bdev_ptr: self.lvs_bdev_ptr }
    }
}

impl PoolsIterView {
    /// There may be more pools.
    pub open spec fn has_next(self) -> bool {
        self.lvs_bdev_ptr != Some(0usize)
    }

    /// The request for the next pool.
    pub open spec fn next_query(self) -> PoolsQuery {
        match self.lvs_bdev_ptr {
            None => PoolsQuery::First,
            Some(ptr) => PoolsQuery::Next(ptr),
        }
    }

    /// The iterator after an answer.
    pub open spec fn answered(self, next_ptr: usize) -> PoolsIterView {
        PoolsIterView { lvs_bdev_ptr: Some(next_ptr) }
    }

    /// The iterator before the first answer.
    pub open spec fn start() -> PoolsIterView {
        PoolsIterView { lvs_bdev_ptr: None }
    }

    /// The iterator after the answers `ptrs`.
    pub open spec fn after(ptrs: Seq<usize>) -> PoolsIterView
        decreases ptrs.len(),
    {
        if ptrs.len() == 0 {
            PoolsIterView::start()
        } else {
            PoolsIterView::after(ptrs.drop_last()).answered(ptrs.last())
        }
    }
}

impl PoolsIter {
    pub fn new() -> (iter: PoolsIter)
        ensures
            iter@ == PoolsIterView::start(),
    {
        PoolsIter { lvs_bdev_ptr: None }
    }

    /// What to ask for next. It must not be used any more once there were no more pools.
    pub fn query(&self) -> (query: PoolsQuery)
        requires
            self@.has_next(),
        ensures
            query == self@.next_query(),
    {
        match self.lvs_bdev_ptr {
            None => PoolsQuery::First,
            Some(ptr) => PoolsQuery::Next(ptr),
        }
    }

    /// Takes the answer: the address of the record of a pool, or 0 if there is none.
    pub fn next(&mut self, next_ptr: usize) -> (found: Option<usize>)
        requires
            old(self)@.has_next(),
        ensures
            final(self)@ == old(self)@.answered(next_ptr),
            found == if next_ptr == 0 {
                None
            } else {
                Some(next_ptr)
            },
    {
        self.lvs_bdev_ptr = Some(next_ptr);
        if next_ptr == 0 {
            None
        } else {
            Some(next_ptr)
        }
    }
}

/// The first pool is asked for first, then the one after the last pool that was found,
/// for as long as pools are found; nothing is asked for after that.
pub proof fn law_pools_are_walked_in_order(ptrs: Seq<usize>)
    requires
        forall|i: int| 0 <= i < ptrs.len() ==> ptrs[i] != 0,
    ensures
        PoolsIterView::after(ptrs).has_next(),
        PoolsIterView::after(ptrs).next_query() == if ptrs.len() == 0 {
            PoolsQuery::First
        } else {
            PoolsQuery::Next(ptrs.last())
        },
        !PoolsIterView::after(ptrs.push(0)).has_next(),
{
}

/// What is reported as used, and what is free, make up the capacity of a pool.
pub proof fn law_used_and_free(pool: PoolView)
    requires
        pool.sound(),
    ensures
        pool.report().used + pool.free() == pool.report().capacity,
        pool.report().capacity == pool.capacity(),
{
    assert(0 <= pool.free()) by (nonlinear_arith)
        requires
            pool.free() == pool.free_clusters * pool.cluster_size,
            pool.free_clusters >= 0,
            pool.cluster_size >= 0,
    ;
}

/// What is said of a pool is said of its lvol store and its base bdev. Its sizes are its
/// clusters times the size of one, and they can be told if no more is free than there is,
/// and that fits in 64 bits.
pub proof fn law_pool_as_it_is(pool: Pool)
    ensures
        pool@.name == pool.lvs.name@,
        pool@.base_bdev == pool.base_bdev.name@,
        pool@.cluster_size == pool.lvs.cluster_size,
        pool@.total_clusters == pool.lvs.total_clusters,
        pool@.free_clusters == pool.lvs.free_clusters,
        pool@.capacity() == pool.lvs.total_clusters * pool.lvs.cluster_size,
        pool@.free() == pool.lvs.free_clusters * pool.lvs.cluster_size,
        pool@.sound() <==> {
            &&& pool.lvs.free_clusters * pool.lvs.cluster_size <= pool.lvs.total_clusters
                * pool.lvs.cluster_size
            &&& pool.lvs.total_clusters * pool.lvs.cluster_size <= u64::MAX
        },
{
}

/// A pool is reported under its name, on one disk, its base bdev, as online. It is as large as
/// all of its clusters, and what is used are those that are not free.
pub proof fn law_reported_pool(pool: Pool, entry: jsondata::Pool)
    requires
        pool@.sound(),
        entry@ == pool@.report(),
    ensures
        entry.name@ == pool.lvs.name@,
        entry.disks@.len() == 1,
        entry.disks@[0]@ == pool.base_bdev.name@,
        entry.state@ == "online"@,
        entry.capacity == pool.lvs.total_clusters * pool.lvs.cluster_size,
        entry.used == (pool.lvs.total_clusters - pool.lvs.free_clusters) * pool.lvs.cluster_size,
{
    let disks = entry@.disks;
    assert(disks.len() == entry.disks@.len());
    assert(disks[0] == entry.disks@[0]@);
    let (total, free, size) = (
        pool.lvs.total_clusters as int,
        pool.lvs.free_clusters as int,
        pool.lvs.cluster_size as int,
    );
    assert(total * size - free * size == (total - free) * size) by (nonlinear_arith);
    assert(0 <= free * size) by (nonlinear_arith)
        requires
            free >= 0,
            size >= 0,
    ;
}

/// The first pool is asked for before there was an answer, and after one the pool behind it,
/// until the answer was that there is none.
pub proof fn law_pools_after_an_answer(iter: PoolsIterView, ptr: usize)
    ensures
        PoolsIterView::start().has_next(),
        PoolsIterView::start().next_query() == PoolsQuery::First,
        iter.answered(ptr).next_query() == PoolsQuery::Next(ptr),
        iter.answered(ptr).has_next() <==> ptr != 0,
{
}

/// What is said of a replica is said of its handle and its pool.
pub proof fn law_replica_as_it_is(replica: Replica)
    ensures
        replica@.handle == replica.handle,
        replica@.pool_name == replica.pool_name@,
{
}

} // verus!
