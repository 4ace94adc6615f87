use mayastor::creation::Creation;
use mayastor::jsondata::{CreateOrImportPoolArgs, DestroyPoolArgs};
use mayastor::jsonrpc::{Code, JsonRpcError};
use mayastor::pool::{list_pools, Bdev, LvolStore, Pool, PoolsIter, PoolsQuery, Replica};
use mayastor::requests::{create_base_bdev, create_or_import_pool, destroy_pool, CreateOrImport};
use mayastor::steps::{Action, ClearMethod, Event, Step};

fn pool(name: &str, disk: &str) -> Pool {
    Pool {
        lvs: LvolStore {
            name: name.to_string(),
            cluster_size: 4194304,
            total_clusters: 24,
            free_clusters: 10,
        },
        base_bdev: Bdev { name: disk.to_string() },
    }
}

fn error(code: Code, message: &str) -> JsonRpcError {
    JsonRpcError { code, message: message.to_string() }
}

fn find_bdev(name: &str) -> Action {
    Action::FindBdev { name: name.to_string() }
}

fn find_pool(name: &str) -> Action {
    Action::FindPool { name: name.to_string() }
}

fn create(events: Vec<Event>) -> Step<Pool> {
    let (mut op, mut step): (Creation, Step<Pool>) = Pool::create("p", "/dev/sdb");
    assert_eq!(step, Step::Do(find_bdev("/dev/sdb")));
    for event in events {
        let (o, s) = op.step(event);
        op = o;
        step = s;
    }
    step
}

fn import(events: Vec<Event>) -> Step<Pool> {
    let (mut op, mut step) = Pool::import("p", "/dev/sdb");
    assert_eq!(step, Step::Do(find_bdev("/dev/sdb")));
    for event in events {
        let (o, s) = op.step(event);
        op = o;
        step = s;
    }
    step
}

fn destroy(events: Vec<Event>) -> Step<()> {
    let (mut op, mut step) = destroy_pool(DestroyPoolArgs { name: "p".to_string() });
    assert_eq!(step, Step::Do(find_pool("p")));
    for event in events {
        let (o, s) = op.step(event);
        op = o;
        step = s;
    }
    step
}

fn request(disks: &[&str], block_size: Option<u32>) -> Result<(CreateOrImport, Step<()>), JsonRpcError> {
    create_or_import_pool(CreateOrImportPoolArgs {
        name: "p".to_string(),
        disks: disks.iter().map(|d| d.to_string()).collect(),
        block_size,
    })
}

fn create_or_import(events: Vec<Event>) -> Step<()> {
    let (mut op, mut step) = request(&["/dev/sdb"], None).unwrap();
    assert_eq!(step, Step::Do(find_pool("p")));
    for event in events {
        let (o, s) = op.step(event);
        op = o;
        step = s;
    }
    step
}

#[test]
fn lookup_needs_store_and_bdev() {
    let p = pool("p", "d");
    assert!(Pool::lookup(None, None).is_none());
    assert!(Pool::lookup(None, Some(p.base_bdev)).is_none());
    assert!(Pool::lookup(Some(p.lvs), None).is_none());
    let p = pool("p", "d");
    assert_eq!(Pool::lookup(Some(p.lvs), Some(p.base_bdev)), Some(pool("p", "d")));
}

#[test]
fn sizes_of_a_pool() {
    let p = pool("p", "d");
    assert_eq!(p.get_name(), "p");
    assert_eq!(p.get_base_bdev().name(), "d");
    assert_eq!(p.get_capacity(), 100663296);
    assert_eq!(p.get_free(), 41943040);
    assert!(p.is_sound());
}

#[test]
fn unsound_sizes() {
    let mut p = pool("p", "d");
    p.lvs.free_clusters = 25;
    assert!(!p.is_sound());
    let mut p = pool("p", "d");
    p.lvs.cluster_size = u64::MAX;
    assert!(!p.is_sound());
}

#[test]
fn listed_pools() {
    let pools = list_pools(&vec![pool("a", "/dev/sda"), pool("b", "/dev/sdb")]);
    assert_eq!(pools.len(), 2);
    assert_eq!(pools[0].name, "a");
    assert_eq!(pools[1].name, "b");
    assert_eq!(pools[1].disks, vec!["/dev/sdb".to_string()]);
    assert_eq!(pools[1].state, "online");
    assert_eq!(pools[1].capacity, 100663296);
    assert_eq!(pools[1].used, 58720256);
    assert!(list_pools(&vec![]).is_empty());
}

#[test]
fn pools_are_walked_in_order() {
    let mut iter = PoolsIter::new();
    assert_eq!(iter, PoolsIter::default());
    assert_eq!(iter.query(), PoolsQuery::First);
    assert_eq!(iter.next(0x1000), Some(0x1000));
    assert_eq!(iter.query(), PoolsQuery::Next(0x1000));
    assert_eq!(iter.next(0x2000), Some(0x2000));
    assert_eq!(iter.query(), PoolsQuery::Next(0x2000));
    assert_eq!(iter.next(0), None);
}

#[test]
fn pool_is_created() {
    assert_eq!(
        create(vec![Event::Bdev(true)]),
        Step::Do(Action::CreateStore {
            bdev: "/dev/sdb".to_string(),
            name: "p".to_string(),
            cluster_size: 0,
            clear: ClearMethod::Unmap,
        })
    );
    assert_eq!(create(vec![Event::Bdev(true), Event::Returned(0)]), Step::Do(Action::AwaitStore));
    assert_eq!(
        create(vec![Event::Bdev(true), Event::Returned(0), Event::Ended(0)]),
        Step::Do(find_pool("p"))
    );
    assert_eq!(
        create(vec![
            Event::Bdev(true),
            Event::Returned(3),
            Event::Ended(0),
            Event::Pool(Some(pool("p", "/dev/sdb"))),
        ]),
        Step::Done(Ok(pool("p", "/dev/sdb")))
    );
}

#[test]
fn pool_is_not_created() {
    assert_eq!(
        create(vec![Event::Bdev(false)]),
        Step::Done(Err(error(Code::NotFound, "Base bdev /dev/sdb does not exist")))
    );
    assert_eq!(
        create(vec![Event::Bdev(true), Event::Returned(-1)]),
        Step::Done(Err(error(Code::InvalidParams, "Failed to create the pool p")))
    );
    assert_eq!(
        create(vec![Event::Bdev(true), Event::Returned(0), Event::Ended(-22)]),
        Step::Done(Err(error(Code::InvalidParams, "Failed to create the pool p (errno=-22)")))
    );
    assert_eq!(
        create(vec![Event::Bdev(true), Event::Returned(0), Event::Ended(0), Event::Pool(None)]),
        Step::Done(Err(error(Code::InternalError, "The pool p disappeared")))
    );
}

#[test]
fn pool_is_imported() {
    assert_eq!(
        import(vec![Event::Bdev(true)]),
        Step::Do(Action::Examine { bdev: "/dev/sdb".to_string() })
    );
    assert_eq!(import(vec![Event::Bdev(true), Event::Ended(0)]), Step::Do(find_pool("p")));
    assert_eq!(
        import(vec![
            Event::Bdev(true),
            Event::Ended(0),
            Event::Pool(Some(pool("p", "/dev/sdb"))),
        ]),
        Step::Done(Ok(pool("p", "/dev/sdb")))
    );
}

#[test]
fn pool_is_not_imported() {
    assert_eq!(
        import(vec![Event::Bdev(false)]),
        Step::Done(Err(error(Code::InternalError, "Base bdev /dev/sdb does not exist")))
    );
    assert_eq!(
        import(vec![Event::Bdev(true), Event::Ended(-2147483648)]),
        Step::Done(Err(error(
            Code::InternalError,
            "Failed to import the pool p (errno=-2147483648)"
        )))
    );
    assert_eq!(
        import(vec![Event::Bdev(true), Event::Ended(5)]),
        Step::Done(Err(error(Code::InternalError, "Failed to import the pool p (errno=5)")))
    );
    assert_eq!(
        import(vec![Event::Bdev(true), Event::Ended(0), Event::Pool(None)]),
        Step::Done(Err(error(Code::InvalidParams, "The device /dev/sdb hosts another pool")))
    );
}

#[test]
fn base_bdev_result() {
    assert_eq!(create_base_bdev(0), Ok(()));
    for rc in [-17, 1] {
        assert_eq!(
            create_base_bdev(rc),
            Err(error(
                Code::InvalidParams,
                "AIO bdev already exists or parameters are invalid"
            ))
        );
    }
}

#[test]
fn one_disk_is_needed() {
    for disks in [&[][..], &["a", "b"][..]] {
        assert_eq!(
            request(disks, None).unwrap_err(),
            error(Code::InvalidParams, "Invalid number of disks specified")
        );
    }
}

#[test]
fn refused_requests() {
    assert_eq!(
        create_or_import(vec![Event::Pool(Some(pool("p", "x")))]),
        Step::Done(Err(error(Code::AlreadyExists, "The pool p already exists")))
    );
    assert_eq!(create_or_import(vec![Event::Pool(None)]), Step::Do(find_bdev("/dev/sdb")));
    assert_eq!(
        create_or_import(vec![Event::Pool(None), Event::Bdev(true)]),
        Step::Done(Err(error(Code::InvalidParams, "Base bdev /dev/sdb already exists")))
    );
    assert_eq!(
        create_or_import(vec![Event::Pool(None), Event::Bdev(false), Event::Returned(-17)]),
        Step::Done(Err(error(
            Code::InvalidParams,
            "AIO bdev already exists or parameters are invalid"
        )))
    );
}

#[test]
fn block_size_of_the_base_bdev() {
    for (asked, expected) in [(None, 4096), (Some(512), 512)] {
        let (op, _) = request(&["/dev/sdb"], asked).unwrap();
        let (op, _) = op.step(Event::Pool(None));
        let (_, step) = op.step(Event::Bdev(false));
        assert_eq!(
            step,
            Step::Do(Action::CreateBdev {
                file: "/dev/sdb".to_string(),
                block_size: expected,
            })
        );
    }
}

fn base_bdev_created() -> Vec<Event> {
    vec![Event::Pool(None), Event::Bdev(false), Event::Returned(0)]
}

#[test]
fn imported_pool_is_not_created() {
    let mut events = base_bdev_created();
    assert_eq!(create_or_import(base_bdev_created()), Step::Do(find_bdev("/dev/sdb")));
    events.push(Event::Bdev(true));
    events.push(Event::Ended(0));
    events.push(Event::Pool(Some(pool("p", "/dev/sdb"))));
    assert_eq!(create_or_import(events), Step::Done(Ok(())));
}

#[test]
fn pool_is_created_if_it_cannot_be_imported() {
    let mut events = base_bdev_created();
    events.extend([Event::Bdev(true), Event::Ended(-19)]);
    events.extend([Event::Bdev(true), Event::Returned(0), Event::Ended(0)]);
    events.push(Event::Pool(Some(pool("p", "/dev/sdb"))));
    assert_eq!(create_or_import(events), Step::Done(Ok(())));

    let mut events = base_bdev_created();
    events.extend([Event::Bdev(true), Event::Ended(0), Event::Pool(None)]);
    events.extend([Event::Bdev(true), Event::Returned(0), Event::Ended(-1)]);
    assert_eq!(
        create_or_import(events),
        Step::Done(Err(error(Code::InvalidParams, "Failed to create the pool p (errno=-1)")))
    );
}

#[test]
fn unknown_pool_is_not_destroyed() {
    assert_eq!(
        destroy(vec![Event::Pool(None)]),
        Step::Done(Err(error(Code::NotFound, "The pool p does not exist")))
    );
}

fn found() -> Vec<Event> {
    vec![Event::Pool(Some(pool("p", "/dev/sdb")))]
}

fn replica(handle: usize, pool_name: &str) -> Event {
    Event::Replica(Some(Replica { handle, pool_name: pool_name.to_string() }))
}

#[test]
fn only_replicas_of_the_pool_are_unshared() {
    let mut events = found();
    events.push(replica(8, "q"));
    assert_eq!(destroy(events), Step::Do(Action::NextReplica));
    let mut events = found();
    events.extend([replica(8, "q"), replica(9, "p")]);
    assert_eq!(destroy(events), Step::Do(Action::UnshareReplica { handle: 9 }));
    let mut events = found();
    events.extend([replica(9, "p"), Event::Unshared(Ok(()))]);
    assert_eq!(destroy(events), Step::Do(Action::NextReplica));
    let mut events = found();
    events.extend([replica(9, "p"), Event::Unshared(Err(error(Code::InternalError, "no")))]);
    assert_eq!(destroy(events), Step::Done(Err(error(Code::InternalError, "no"))));
}

#[test]
fn first_replica_that_stays_shared_decides() {
    let mut events = found();
    events.extend([replica(1, "p"), Event::Unshared(Ok(()))]);
    events.push(replica(2, "q"));
    events.extend([replica(3, "p"), Event::Unshared(Err(error(Code::InvalidParams, "busy")))]);
    assert_eq!(destroy(events), Step::Done(Err(error(Code::InvalidParams, "busy"))));

    let mut events = found();
    events.extend([replica(1, "p"), Event::Unshared(Ok(())), replica(2, "q")]);
    events.extend([replica(3, "p"), Event::Unshared(Ok(())), Event::Replica(None)]);
    events.extend([Event::Ended(0), Event::Bdev(true), Event::Ended(0)]);
    assert_eq!(destroy(events), Step::Done(Ok(())));
}

#[test]
fn pool_is_destroyed() {
    let mut events = found();
    events.extend([replica(9, "p"), Event::Unshared(Ok(())), Event::Replica(None)]);
    assert_eq!(destroy(events), Step::Do(Action::DestroyStore { name: "p".to_string() }));
    let mut events = found();
    events.extend([Event::Replica(None), Event::Ended(0)]);
    assert_eq!(destroy(events), Step::Do(find_bdev("/dev/sdb")));
    let mut events = found();
    events.extend([Event::Replica(None), Event::Ended(0), Event::Bdev(true)]);
    assert_eq!(
        destroy(events),
        Step::Do(Action::DeleteBdev { name: "/dev/sdb".to_string() })
    );
    let mut events = found();
    events.extend([Event::Replica(None), Event::Ended(0), Event::Bdev(true), Event::Ended(0)]);
    assert_eq!(destroy(events), Step::Done(Ok(())));
}

#[test]
fn missing_base_bdev_is_no_error() {
    let mut events = found();
    events.extend([Event::Replica(None), Event::Ended(0), Event::Bdev(false)]);
    assert_eq!(destroy(events), Step::Done(Ok(())));
}

#[test]
fn pool_is_not_destroyed() {
    let mut events = found();
    events.extend([Event::Replica(None), Event::Ended(-16)]);
    assert_eq!(
        destroy(events),
        Step::Done(Err(error(Code::InternalError, "Failed to destroy pool p (errno=-16)")))
    );
    let mut events = found();
    events.extend([Event::Replica(None), Event::Ended(0), Event::Bdev(true), Event::Ended(-5)]);
    assert_eq!(
        destroy(events),
        Step::Done(Err(error(
            Code::InternalError,
            "Failed to destroy base bdev /dev/sdb for the pool p (errno=-5)"
        )))
    );
}
