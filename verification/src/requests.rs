//! The json-rpc methods that create, import and destroy pools.

use vstd::prelude::*;

use crate::creation::{creation, Creation, CreationView};
use crate::destruction::{
    asked, destruction, destruction_after, last_step, reached, Destruction, DestructionView,
};
use crate::import::{import, Import, ImportView};
use crate::jsondata::{CreateOrImportPoolArgs, DestroyPoolArgs};
use crate::jsonrpc::{Code, ErrorView, JsonRpcError};
use crate::pool::{Pool, PoolView};
use crate::steps::{answers, Action, ActionView, ClearMethod, Event, EventView, Step, StepView};
use crate::text::{around, errno_text};

verus! {

/// The block size of a base bdev if none is asked for.
pub const DEFAULT_BLOCK_SIZE: u32 = 4096;

/// The error if a base bdev could not be created.
pub open spec fn bdev_error() -> ErrorView {
    ErrorView {
        code: Code::InvalidParams,
        message: "AIO bdev already exists or parameters are invalid"@,
    }
}

/// What the return code of the creation of an aio bdev means.
pub fn create_base_bdev(rc: i32) -> (res: Result<(), JsonRpcError>)
    ensures
        match res {
            Ok(_) => rc == 0,
            Err(e) => rc != 0 && e@ == bdev_error(),
        },
{
    if rc != 0 {
        Err(
            JsonRpcError::new(
                Code::InvalidParams,
                "AIO bdev already exists or parameters are invalid".to_owned(),
            ),
        )
    } else {
        Ok(())
    }
}

/// What a request to create or import a pool waits for.
#[derive(Debug, PartialEq, Eq)]
enum CreateOrImportStage {
    /// a pool with that name
    Pool,
    /// a bdev on that disk
    Bdev,
    /// the new base bdev
    BaseBdev,
    /// the import of the pool
    Importing(Import),
    /// the creation of the pool
    Creating(Creation),
    /// nothing, it is over
    Over,
}

/// A request to create or import a pool.
#[derive(Debug, PartialEq, Eq)]
pub struct CreateOrImport {
    name: String,
    disk: String,
    block_size: u32,
    stage: CreateOrImportStage,
}

/// A stage with its texts as sequences of characters.
#[verifier::ext_equal]
pub enum CreateOrImportStageView {
    Pool,
    Bdev,
    BaseBdev,
    Importing(ImportView),
    Creating(CreationView),
    Over,
}

/// A request to create or import a pool, with its texts as sequences of characters.
#[verifier::ext_equal]
pub struct CreateOrImportView {
    pub name: Seq<char>,
    pub disk: Seq<char>,
    pub block_size: u32,
    pub stage: CreateOrImportStageView,
}

impl View for CreateOrImport {
    type V = CreateOrImportView;

    closed spec fn view(&self) -> CreateOrImportView {
        CreateOrImportView {
            name: self.name@,
            disk: self.disk@,
            block_size: self.block_size,
            stage: match self.stage {
                CreateOrImportStage::Pool => CreateOrImportStageView::Pool,
                CreateOrImportStage::Bdev => CreateOrImportStageView::Bdev,
                CreateOrImportStage::BaseBdev => CreateOrImportStageView::BaseBdev,
                CreateOrImportStage::Importing(i) => CreateOrImportStageView::Importing(i@),
                CreateOrImportStage::Creating(c) => CreateOrImportStageView::Creating(c@),
                CreateOrImportStage::Over => CreateOrImportStageView::Over,
            },
        }
    }
}

impl CreateOrImportView {
    /// How many events the request can still take.
    pub open spec fn events_left(self) -> nat {
        match self.stage {
            CreateOrImportStageView::Pool => 10,
            CreateOrImportStageView::Bdev => 9,
            CreateOrImportStageView::BaseBdev => 8,
            CreateOrImportStageView::Importing(i) => i.events_left() + 4,
            CreateOrImportStageView::Creating(c) => c.events_left(),
            CreateOrImportStageView::Over => 0,
        }
    }

    /// The action that is under way.
    pub open spec fn pending(self) -> Option<ActionView> {
        match self.stage {
            CreateOrImportStageView::Pool => Some(ActionView::FindPool { name: self.name }),
            CreateOrImportStageView::Bdev => Some(ActionView::FindBdev { name: self.disk }),
            CreateOrImportStageView::BaseBdev => Some(
                ActionView::CreateBdev { file: self.disk, block_size: self.block_size },
            ),
            CreateOrImportStageView::Importing(i) => i.pending(),
            CreateOrImportStageView::Creating(c) => c.pending(),
            CreateOrImportStageView::Over => None,
        }
    }

    /// The event tells how the action that is under way went.
    pub open spec fn awaits(self, event: EventView) -> bool {
        self.pending() matches Some(action) && answers(event, action)
    }

    /// On to a stage, with an action of it.
    pub open spec fn go(self, stage: CreateOrImportStageView, action: ActionView) -> (
        CreateOrImportView,
        StepView<()>,
    ) {
        (CreateOrImportView { stage, ..self }, StepView::Do(action))
    }

    /// To the end.
    pub open spec fn stop(self, res: Result<(), ErrorView>) -> (CreateOrImportView, StepView<()>) {
        (
            CreateOrImportView { stage: CreateOrImportStageView::Over, ..self },
            StepView::Done(res),
        )
    }

    pub open spec fn pool_exists(self) -> ErrorView {
        ErrorView {
            code: Code::AlreadyExists,
            message: "The pool "@ + self.name + " already exists"@,
        }
    }

    pub open spec fn bdev_exists(self) -> ErrorView {
        ErrorView {
            code: Code::InvalidParams,
            message: "Base bdev "@ + self.disk + " already exists"@,
        }
    }

    /// What comes after an event. If the pool cannot be imported it is created.
    pub open spec fn next(self, event: EventView) -> (CreateOrImportView, StepView<()>) {
        match (self.stage, event) {
            (CreateOrImportStageView::Pool, EventView::Pool(pool)) => if pool is Some {
                self.stop(Err(self.pool_exists()))
            } else {
                self.go(
                    CreateOrImportStageView::Bdev,
                    ActionView::FindBdev { name: self.disk },
                )
            },
            (CreateOrImportStageView::Bdev, EventView::Bdev(found)) => if found {
                self.stop(Err(self.bdev_exists()))
            } else {
                self.go(
                    CreateOrImportStageView::BaseBdev,
                    ActionView::CreateBdev { file: self.disk, block_size: self.block_size },
                )
            },
            (CreateOrImportStageView::BaseBdev, EventView::Returned(rc)) => if rc != 0 {
                self.stop(Err(bdev_error()))
            } else {
                self.go(
                    CreateOrImportStageView::Importing(import(self.name, self.disk)),
                    ActionView::FindBdev { name: self.disk },
                )
            },
            (CreateOrImportStageView::Importing(i), event) => match i.next(event) {
                (i, StepView::Do(action)) => self.go(
                    CreateOrImportStageView::Importing(i),
                    action,
                ),
                (_, StepView::Done(Ok(_))) => self.stop(Ok(())),
                (_, StepView::Done(Err(_))) => self.go(
                    CreateOrImportStageView::Creating(creation(self.name, self.disk)),
                    ActionView::FindBdev { name: self.disk },
                ),
            },
            (CreateOrImportStageView::Creating(c), event) => match c.next(event) {
                (c, StepView::Do(action)) => self.go(CreateOrImportStageView::Creating(c), action),
                (_, StepView::Done(Ok(_))) => self.stop(Ok(())),
                (_, StepView::Done(Err(e))) => self.stop(Err(e)),
            },
            _ => arbitrary(),
        }
    }
}

/// A request to create or import a pool before its first event.
pub open spec fn create_or_import(
    name: Seq<char>,
    disk: Seq<char>,
    block_size: Option<u32>,
) -> CreateOrImportView {
    CreateOrImportView {
        name,
        disk,
        block_size: match block_size {
            Some(block_size) => block_size,
            None => DEFAULT_BLOCK_SIZE,
        },
        stage: CreateOrImportStageView::Pool,
    }
}

/// The error if there is not exactly one disk.
pub open spec fn disks_error() -> ErrorView {
    ErrorView { code: Code::InvalidParams, message: "Invalid number of disks specified"@ }
}

/// The method `create_or_import_pool`. A pool has exactly one disk.
pub fn create_or_import_pool(args: CreateOrImportPoolArgs) -> (res: Result<
    (CreateOrImport, Step<()>),
    JsonRpcError,
>)
    ensures
        match res {
            Ok((request, step)) => {
                &&& args.disks@.len() == 1
                &&& request@ == create_or_import(args.name@, args.disks@[0]@, args.block_size)
                &&& step@ == StepView::<()>::Do(ActionView::FindPool { name: args.name@ })
            },
            Err(e) => args.disks@.len() != 1 && e@ == disks_error(),
        },
{
    if args.disks.len() != 1 {
        return Err(
            JsonRpcError::new(
                Code::InvalidParams,
                "Invalid number of disks specified".to_owned(),
            ),
        );
    }
    let action = Action::FindPool { name: args.name.clone() };
    let request = CreateOrImport {
        disk: args.disks[0].clone(),
        block_size: args.block_size.unwrap_or(DEFAULT_BLOCK_SIZE),
        name: args.name,
        stage: CreateOrImportStage::Pool,
    };
    Ok((request, Step::Do(action)))
}

impl CreateOrImport {
    /// Goes on after an event.
    pub fn step(self, event: Event) -> (res: (CreateOrImport, Step<()>))
        requires
            self@.awaits(event@),
        ensures
            (res.0@, res.1@) == self@.next(event@),
    {
        let CreateOrImport { name, disk, block_size, stage } = self;
        let (stage, step) = match stage {
            CreateOrImportStage::Pool => match event {
                Event::Pool(Some(_)) => {
                    let message = around("The pool ", name.as_str(), " already exists");
                    (
                        CreateOrImportStage::Over,
                        Step::Done(Err(JsonRpcError::new(Code::AlreadyExists, message))),
                    )
                },
                _ => (
                    CreateOrImportStage::Bdev,
                    Step::Do(Action::FindBdev { name: disk.clone() }),
                ),
            },
            CreateOrImportStage::Bdev => match event {
                Event::Bdev(true) => {
                    let message = around("Base bdev ", disk.as_str(), " already exists");
                    (
                        CreateOrImportStage::Over,
                        Step::Done(Err(JsonRpcError::new(Code::InvalidParams, message))),
                    )
                },
                _ => (
                    CreateOrImportStage::BaseBdev,
                    Step::Do(Action::CreateBdev { file: disk.clone(), block_size }),
                ),
            },
            CreateOrImportStage::BaseBdev => {
                let rc: i32 = match event {
                    Event::Returned(rc) => rc,
                    _ => 0,
                };
                match create_base_bdev(rc) {
                    Err(e) => (CreateOrImportStage::Over, Step::Done(Err(e))),
                    Ok(_) => {
                        let (i, _) = Pool::import(name.as_str(), disk.as_str());
                        (
                            CreateOrImportStage::Importing(i),
                            Step::Do(Action::FindBdev { name: disk.clone() }),
                        )
                    },
                }
            },
            CreateOrImportStage::Importing(i) => match i.step(event) {
                (i, Step::Do(action)) => (CreateOrImportStage::Importing(i), Step::Do(action)),
                (_, Step::Done(Ok(_))) => (CreateOrImportStage::Over, Step::Done(Ok(()))),
                (_, Step::Done(Err(_))) => {
                    let (c, _) = Pool::create(name.as_str(), disk.as_str());
                    (
                        CreateOrImportStage::Creating(c),
                        Step::Do(Action::FindBdev { name: disk.clone() }),
                    )
                },
            },
            CreateOrImportStage::Creating(c) => match c.step(event) {
                (c, Step::Do(action)) => (CreateOrImportStage::Creating(c), Step::Do(action)),
                (_, Step::Done(Ok(_))) => (CreateOrImportStage::Over, Step::Done(Ok(()))),
                (_, Step::Done(Err(e))) => (CreateOrImportStage::Over, Step::Done(Err(e))),
            },
            CreateOrImportStage::Over => (CreateOrImportStage::Over, Step::Done(Ok(()))),
        };
        (CreateOrImport { name, disk, block_size, stage }, step)
    }
}

/// After each step the request waits for the action that it asked for, and for nothing
/// once it is over.
pub proof fn law_create_or_import_waits_for_its_action(r: CreateOrImportView, event: EventView)
    requires
        r.awaits(event),
    ensures
        match r.next(event) {
            (next, StepView::Do(action)) => next.pending() == Some(action),
            (next, StepView::Done(_)) => next.pending() is None,
        },
{
}

/// The step after a number of events, of which those after the end are not used.
pub open spec fn create_or_import_after(
    r: CreateOrImportView,
    step: StepView<()>,
    events: Seq<EventView>,
) -> StepView<()>
    decreases events.len(),
{
    if events.len() == 0 || step is Done {
        step
    } else {
        let (next, step) = r.next(events[0]);
        create_or_import_after(next, step, events.drop_first())
    }
}

/// Each event brings the request nearer to its end, which comes after ten at most.
pub proof fn law_create_or_import_ends(r: CreateOrImportView, event: EventView)
    requires
        r.awaits(event),
    ensures
        r.next(event).0.events_left() < r.events_left() <= 10,
{
}

/// A pool with that name, or a bdev on that disk, is not touched: the request is refused
/// before anything is created. It is refused as well if the base bdev cannot be created.
/// Otherwise the pool is looked for on the disk.
pub proof fn law_refused_requests(
    name: Seq<char>,
    disk: Seq<char>,
    block_size: Option<u32>,
    pool: Option<PoolView>,
    found: bool,
    rc: i32,
)
    ensures
        ({
            let r = create_or_import(name, disk, block_size);
            let first = StepView::<()>::Do(r.pending()->0);
            let events = seq![
                EventView::Pool(pool),
                EventView::Bdev(found),
                EventView::Returned(rc),
            ];
            create_or_import_after(r, first, events) == if pool is Some {
                StepView::<()>::Done(Err(r.pool_exists()))
            } else if found {
                StepView::<()>::Done(Err(r.bdev_exists()))
            } else if rc != 0 {
                StepView::<()>::Done(Err(bdev_error()))
            } else {
                StepView::<()>::Do(ActionView::FindBdev { name: disk })
            }
        }),
{
    reveal_with_fuel(create_or_import_after, 4);
    let events = seq![EventView::Pool(pool), EventView::Bdev(found), EventView::Returned(rc)];
    assert(events.drop_first()[0] == events[1]);
    assert(events.drop_first().drop_first()[0] == events[2]);
}

/// The events of an import, up to the one that ends it.
pub open spec fn import_events(found: bool, errno: i32, pool: Option<PoolView>) -> Seq<EventView> {
    if !found {
        seq![EventView::Bdev(found)]
    } else if errno != 0 {
        seq![EventView::Bdev(found), EventView::Ended(errno)]
    } else {
        seq![EventView::Bdev(found), EventView::Ended(errno), EventView::Pool(pool)]
    }
}

/// Once the base bdev is there, the request succeeds if the pool is imported, without
/// anything being created; else the pool is created, and the request comes to what the
/// creation comes to.
pub proof fn law_import_or_create(
    name: Seq<char>,
    disk: Seq<char>,
    block_size: u32,
    import_found: bool,
    import_errno: i32,
    imported: Option<PoolView>,
    found: bool,
    rc: i32,
    errno: i32,
    created: Option<PoolView>,
)
    ensures
        ({
            let r = CreateOrImportView {
                name,
                disk,
                block_size,
                stage: CreateOrImportStageView::Importing(import(name, disk)),
            };
            let first = StepView::<()>::Do(r.pending()->0);
            let events = import_events(import_found, import_errno, imported) + seq![
                EventView::Bdev(found),
                EventView::Returned(rc),
                EventView::Ended(errno),
                EventView::Pool(created),
            ];
            let c = creation(name, disk);
            create_or_import_after(r, first, events) == StepView::<()>::Done(
                if import_found && import_errno == 0 && imported is Some {
                    Ok(())
                } else if !found {
                    Err(c.no_bdev())
                } else if rc < 0 {
                    Err(c.not_started())
                } else if errno != 0 {
                    Err(c.failed(errno))
                } else if created is None {
                    Err(c.disappeared())
                } else {
                    Ok(())
                },
            )
        }),
{
    reveal_with_fuel(create_or_import_after, 8);
    let rest = seq![
        EventView::Bdev(found),
        EventView::Returned(rc),
        EventView::Ended(errno),
        EventView::Pool(created),
    ];
    let events = import_events(import_found, import_errno, imported) + rest;
    let e1 = events.drop_first();
    let e2 = e1.drop_first();
    let e3 = e2.drop_first();
    assert(events[0] == EventView::Bdev(import_found));
    if !import_found {
        assert(e1 =~= rest);
    } else if import_errno != 0 {
        assert(e1[0] == EventView::Ended(import_errno));
        assert(e2 =~= rest);
    } else {
        assert(e1[0] == EventView::Ended(import_errno));
        assert(e2[0] == EventView::Pool(imported));
        assert(e3 =~= rest);
    }
    assert(rest.drop_first()[0] == rest[1]);
    assert(rest.drop_first().drop_first()[0] == rest[2]);
    assert(rest.drop_first().drop_first().drop_first()[0] == rest[3]);
}

/// A request comes to an error if there is such a pool, or such a bdev, or if the base
/// bdev cannot be created; else to success if the pool is imported; else to what the
/// creation of the pool comes to.
pub proof fn law_create_or_import_outcome(
    name: Seq<char>,
    disk: Seq<char>,
    block_size: Option<u32>,
    pool: Option<PoolView>,
    bdev: bool,
    bdev_rc: i32,
    import_found: bool,
    import_errno: i32,
    imported: Option<PoolView>,
    found: bool,
    rc: i32,
    errno: i32,
    created: Option<PoolView>,
)
    ensures
        ({
            let r = create_or_import(name, disk, block_size);
            let first = StepView::<()>::Do(r.pending()->0);
            let events = seq![
                EventView::Pool(pool),
                EventView::Bdev(bdev),
                EventView::Returned(bdev_rc),
            ] + (import_events(import_found, import_errno, imported) + seq![
                EventView::Bdev(found),
                EventView::Returned(rc),
                EventView::Ended(errno),
                EventView::Pool(created),
            ]);
            let c = creation(name, disk);
            create_or_import_after(r, first, events) == StepView::<()>::Done(
                if pool is Some {
                    Err(r.pool_exists())
                } else if bdev {
                    Err(r.bdev_exists())
                } else if bdev_rc != 0 {
                    Err(bdev_error())
                } else if import_found && import_errno == 0 && imported is Some {
                    Ok(())
                } else if !found {
                    Err(c.no_bdev())
                } else if rc < 0 {
                    Err(c.not_started())
                } else if errno != 0 {
                    Err(c.failed(errno))
                } else if created is None {
                    Err(c.disappeared())
                } else {
                    Ok(())
                },
            )
        }),
{
    let r = create_or_import(name, disk, block_size);
    let rest = import_events(import_found, import_errno, imported) + seq![
        EventView::Bdev(found),
        EventView::Returned(rc),
        EventView::Ended(errno),
        EventView::Pool(created),
    ];
    let head = seq![EventView::Pool(pool), EventView::Bdev(bdev), EventView::Returned(bdev_rc)];
    let events = head + rest;
    let e1 = events.drop_first();
    let e2 = e1.drop_first();
    assert(events[0] == head[0] && e1[0] == head[1] && e2[0] == head[2]);
    assert(e2.drop_first() =~= rest);
    reveal_with_fuel(create_or_import_after, 4);
    law_import_or_create(
        name,
        disk,
        r.block_size,
        import_found,
        import_errno,
        imported,
        found,
        rc,
        errno,
        created,
    );
}

/// What a request to destroy a pool waits for.
#[derive(Debug, PartialEq, Eq)]
enum DestroyStage {
    /// the pool
    Pool,
    /// the destruction of the pool
    Destroying(Destruction),
    /// nothing, it is over
    Over,
}

/// A request to destroy a pool.
#[derive(Debug, PartialEq, Eq)]
pub struct DestroyRequest {
    name: String,
    stage: DestroyStage,
}

/// A stage with its texts as sequences of characters.
#[verifier::ext_equal]
pub enum DestroyStageView {
    Pool,
    Destroying(DestructionView),
    Over,
}

/// A request to destroy a pool, with its texts as sequences of characters.
#[verifier::ext_equal]
pub struct DestroyRequestView {
    pub name: Seq<char>,
    pub stage: DestroyStageView,
}

impl View for DestroyRequest {
    type V = DestroyRequestView;

    closed spec fn view(&self) -> DestroyRequestView {
        DestroyRequestView {
            name: self.name@,
            stage: match self.stage {
                DestroyStage::Pool => DestroyStageView::Pool,
                DestroyStage::Destroying(d) => DestroyStageView::Destroying(d@),
                DestroyStage::Over => DestroyStageView::Over,
            },
        }
    }
}

impl DestroyRequestView {
    /// The action that is under way.
    pub open spec fn pending(self) -> Option<ActionView> {
        match self.stage {
            DestroyStageView::Pool => Some(ActionView::FindPool { name: self.name }),
            DestroyStageView::Destroying(d) => d.pending(),
            DestroyStageView::Over => None,
        }
    }

    /// The event tells how the action that is under way went.
    pub open spec fn awaits(self, event: EventView) -> bool {
        self.pending() matches Some(action) && answers(event, action)
    }

    pub open spec fn no_pool(self) -> ErrorView {
        ErrorView {
            code: Code::NotFound,
            message: "The pool "@ + self.name + " does not exist"@,
        }
    }

    /// What comes after an event: the pool that was found is destroyed.
    pub open spec fn next(self, event: EventView) -> (DestroyRequestView, StepView<()>) {
        let over = DestroyRequestView { stage: DestroyStageView::Over, ..self };
        match (self.stage, event) {
            (DestroyStageView::Pool, EventView::Pool(pool)) => match pool {
                Some(pool) => (
                    DestroyRequestView {
                        stage: DestroyStageView::Destroying(destruction(pool)),
                        ..self
                    },
                    StepView::Do(ActionView::NextReplica),
                ),
                None => (over, StepView::Done(Err(self.no_pool()))),
            },
            (DestroyStageView::Destroying(d), event) => match d.next(event) {
                (d, StepView::Do(action)) => (
                    DestroyRequestView { stage: DestroyStageView::Destroying(d), ..self },
                    StepView::Do(action),
                ),
                (_, StepView::Done(res)) => (over, StepView::Done(res)),
            },
            _ => arbitrary(),
        }
    }
}

/// The method `destroy_pool`.
pub fn destroy_pool(args: DestroyPoolArgs) -> (res: (DestroyRequest, Step<()>))
    ensures
        res.0@ == (DestroyRequestView { name: args.name@, stage: DestroyStageView::Pool }),
        res.1@ == StepView::<()>::Do(ActionView::FindPool { name: args.name@ }),
{
    let action = Action::FindPool { name: args.name.clone() };
    (DestroyRequest { name: args.name, stage: DestroyStage::Pool }, Step::Do(action))
}

impl DestroyRequest {
    /// Goes on after an event.
    pub fn step(self, event: Event) -> (res: (DestroyRequest, Step<()>))
        requires
            self@.awaits(event@),
        ensures
            (res.0@, res.1@) == self@.next(event@),
    {
        let DestroyRequest { name, stage } = self;
        let (stage, step) = match stage {
            DestroyStage::Pool => match event {
                Event::Pool(Some(pool)) => {
                    let (d, step) = pool.destroy();
                    (DestroyStage::Destroying(d), step)
                },
                _ => {
                    let message = around("The pool ", name.as_str(), " does not exist");
                    (
                        DestroyStage::Over,
                        Step::Done(Err(JsonRpcError::new(Code::NotFound, message))),
                    )
                },
            },
            DestroyStage::Destroying(d) => match d.step(event) {
                (d, Step::Do(action)) => (DestroyStage::Destroying(d), Step::Do(action)),
                (_, Step::Done(res)) => (DestroyStage::Over, Step::Done(res)),
            },
            DestroyStage::Over => (DestroyStage::Over, Step::Done(Ok(()))),
        };
        (DestroyRequest { name, stage }, step)
    }
}

/// After each step the request waits for the action that it asked for, and for nothing
/// once it is over.
pub proof fn law_destroy_waits_for_its_action(r: DestroyRequestView, event: EventView)
    requires
        r.awaits(event),
    ensures
        match r.next(event) {
            (next, StepView::Do(action)) => next.pending() == Some(action),
            (next, StepView::Done(_)) => next.pending() is None,
        },
{
}

/// The step after a number of events, of which those after the end are not used.
pub open spec fn destroy_after(
    r: DestroyRequestView,
    step: StepView<()>,
    events: Seq<EventView>,
) -> StepView<()>
    decreases events.len(),
{
    if events.len() == 0 || step is Done {
        step
    } else {
        let (next, step) = r.next(events[0]);
        destroy_after(next, step, events.drop_first())
    }
}

/// Once the pool is found, the request comes to what its destruction comes to.
proof fn lemma_destroying(
    r: DestroyRequestView,
    d: DestructionView,
    step: StepView<()>,
    events: Seq<EventView>,
)
    requires
        r.stage == DestroyStageView::Destroying(d),
    ensures
        destroy_after(r, step, events) == destruction_after(d, step, events),
    decreases events.len(),
{
    reveal_with_fuel(destroy_after, 2);
    reveal_with_fuel(destruction_after, 2);
    if events.len() > 0 && step is Do {
        let (next, following) = d.next(events[0]);
        let (after, last) = r.next(events[0]);
        assert(last == following);
        if following is Do {
            lemma_destroying(after, next, following, events.drop_first());
        }
    }
}

/// A request to destroy a pool comes to an error if there is no such pool, and else to
/// what the destruction of the pool that was found comes to.
pub proof fn law_destroy_outcome(
    name: Seq<char>,
    found: Option<PoolView>,
    events: Seq<EventView>,
)
    ensures
        ({
            let r = DestroyRequestView { name, stage: DestroyStageView::Pool };
            let first = StepView::<()>::Do(r.pending()->0);
            destroy_after(r, first, seq![EventView::Pool(found)] + events) == match found {
                None => StepView::<()>::Done(Err(r.no_pool())),
                Some(pool) => destruction_after(
                    destruction(pool),
                    StepView::<()>::Do(ActionView::NextReplica),
                    events,
                ),
            }
        }),
{
    let r = DestroyRequestView { name, stage: DestroyStageView::Pool };
    let all = seq![EventView::Pool(found)] + events;
    assert(all.drop_first() =~= events);
    let (next, step) = r.next(all[0]);
    if let Some(pool) = found {
        lemma_destroying(next, destruction(pool), step, events);
    }
}

/// The error of a base bdev that could not be created.
pub proof fn law_bdev_error()
    ensures
        bdev_error().code == Code::InvalidParams,
        bdev_error().message == "AIO bdev already exists or parameters are invalid"@,
        disks_error().code == Code::InvalidParams,
        disks_error().message == "Invalid number of disks specified"@,
{
}

/// How a request to create or import a pool begins: a pool of that name is looked for, then
/// a bdev on the disk, and if there is neither, the base bdev is created on the disk, with
/// the block size that was asked for, or else with blocks of 4096 bytes. Then the base bdev
/// is looked for.
pub proof fn law_request_begins(
    name: Seq<char>,
    disk: Seq<char>,
    block_size: Option<u32>,
    pool: PoolView,
    rc: i32,
)
    ensures
        ({
            let r = create_or_import(name, disk, block_size);
            let (r1, s1) = r.next(EventView::Pool(None));
            let (r2, s2) = r1.next(EventView::Bdev(false));
            &&& r.pending() == Some(ActionView::FindPool { name })
            &&& r.next(EventView::Pool(Some(pool))).1 == StepView::<()>::Done(
                Err(
                    ErrorView {
                        code: Code::AlreadyExists,
                        message: "The pool "@ + name + " already exists"@,
                    },
                ),
            )
            &&& s1 == StepView::<()>::Do(ActionView::FindBdev { name: disk })
            &&& r1.next(EventView::Bdev(true)).1 == StepView::<()>::Done(
                Err(
                    ErrorView {
                        code: Code::InvalidParams,
                        message: "Base bdev "@ + disk + " already exists"@,
                    },
                ),
            )
            &&& s2 == StepView::<()>::Do(
                ActionView::CreateBdev {
                    file: disk,
                    block_size: if block_size is Some {
                        block_size->0
                    } else {
                        4096
                    },
                },
            )
            &&& rc != 0 ==> r2.next(EventView::Returned(rc)).1 == StepView::<()>::Done(
                Err(
                    ErrorView {
                        code: Code::InvalidParams,
                        message: "AIO bdev already exists or parameters are invalid"@,
                    },
                ),
            )
            &&& r2.next(EventView::Returned(0)).1 == StepView::<()>::Do(
                ActionView::FindBdev { name: disk },
            )
        }),
{
}

/// A request to create or import a pool when its base bdev has been created.
pub open spec fn with_base_bdev(
    name: Seq<char>,
    disk: Seq<char>,
    block_size: Option<u32>,
) -> CreateOrImportView {
    create_or_import(name, disk, block_size).next(EventView::Pool(None)).0.next(
        EventView::Bdev(false),
    ).0.next(EventView::Returned(0)).0
}

/// With its base bdev, a request imports the pool: the bdev is examined, and the pool is
/// looked up; if it is there, that is all. Whatever goes wrong, the pool is created next,
/// which begins with a search for the base bdev, and goes on from the same state whatever it
/// was that went wrong.
pub proof fn law_request_imports(
    name: Seq<char>,
    disk: Seq<char>,
    block_size: Option<u32>,
    errno: i32,
    pool: PoolView,
)
    ensures
        ({
            let r = with_base_bdev(name, disk, block_size);
            let (r1, s1) = r.next(EventView::Bdev(true));
            let (r2, s2) = r1.next(EventView::Ended(0));
            let (c, s) = r.next(EventView::Bdev(false));
            &&& r.pending() == Some(ActionView::FindBdev { name: disk })
            &&& s1 == StepView::<()>::Do(ActionView::Examine { bdev: disk })
            &&& s2 == StepView::<()>::Do(ActionView::FindPool { name })
            &&& r2.next(EventView::Pool(Some(pool))).1 == StepView::<()>::Done(Ok(()))
            &&& s == StepView::<()>::Do(ActionView::FindBdev { name: disk })
            &&& errno != 0 ==> r1.next(EventView::Ended(errno)) == (c, s)
            &&& r2.next(EventView::Pool(None)) == (c, s)
        }),
{
}

/// If the pool could not be imported it is created: an lvol store with its name is created on
/// the base bdev, with clusters of the default size, unmapped, that is awaited, and the pool
/// is looked up. What goes wrong then is the error of the request.
pub proof fn law_request_creates(
    name: Seq<char>,
    disk: Seq<char>,
    block_size: Option<u32>,
    rc: i32,
    errno: i32,
    pool: PoolView,
)
    ensures
        ({
            let c = with_base_bdev(name, disk, block_size).next(EventView::Bdev(false)).0;
            let (c1, s1) = c.next(EventView::Bdev(true));
            let (c2, s2) = c1.next(EventView::Returned(rc));
            let (c3, s3) = c2.next(EventView::Ended(0));
            &&& c.next(EventView::Bdev(false)).1 == StepView::<()>::Done(
                Err(
                    ErrorView {
                        code: Code::NotFound,
                        message: "Base bdev "@ + disk + " does not exist"@,
                    },
                ),
            )
            &&& s1 == StepView::<()>::Do(
                ActionView::CreateStore {
                    bdev: disk,
                    name,
                    cluster_size: 0,
                    clear: ClearMethod::Unmap,
                },
            )
            &&& rc < 0 ==> s2 == StepView::<()>::Done(
                Err(
                    ErrorView {
                        code: Code::InvalidParams,
                        message: "Failed to create the pool "@ + name,
                    },
                ),
            )
            &&& rc >= 0 ==> {
                &&& s2 == StepView::<()>::Do(ActionView::AwaitStore)
                &&& errno != 0 ==> c2.next(EventView::Ended(errno)).1 == StepView::<()>::Done(
                    Err(
                        ErrorView {
                            code: Code::InvalidParams,
                            message: "Failed to create the pool "@ + name + errno_text(errno as int),
                        },
                    ),
                )
                &&& s3 == StepView::<()>::Do(ActionView::FindPool { name })
                &&& c3.next(EventView::Pool(Some(pool))).1 == StepView::<()>::Done(Ok(()))
                &&& c3.next(EventView::Pool(None)).1 == StepView::<()>::Done(
                    Err(
                        ErrorView {
                            code: Code::InternalError,
                            message: "The pool "@ + name + " disappeared"@,
                        },
                    ),
                )
            }
        }),
{
}

/// A request to destroy a pool looks for the pool of that name. If there is none it is
/// refused, and else the pool that was found is destroyed, from its first replica on.
pub proof fn law_destroy_begins(name: Seq<char>, pool: PoolView)
    ensures
        ({
            let r = DestroyRequestView { name, stage: DestroyStageView::Pool };
            let (r1, s1) = r.next(EventView::Pool(Some(pool)));
            &&& r.pending() == Some(ActionView::FindPool { name })
            &&& r.next(EventView::Pool(None)).1 == StepView::<()>::Done(
                Err(
                    ErrorView {
                        code: Code::NotFound,
                        message: "The pool "@ + name + " does not exist"@,
                    },
                ),
            )
            &&& s1 == StepView::<()>::Do(ActionView::NextReplica)
            &&& r1.stage == DestroyStageView::Destroying(reached(pool, Seq::empty()))
        }),
{
}

/// While it destroys a pool, a request asks for what the destruction of the pool asks for,
/// and comes to what that comes to.
pub proof fn law_destroy_follows_the_destruction(
    r: DestroyRequestView,
    pool: PoolView,
    events: Seq<EventView>,
    event: EventView,
)
    requires
        r.stage == DestroyStageView::Destroying(reached(pool, events)),
    ensures
        r.pending() == asked(pool, events),
        r.next(event).1 == last_step(pool, events.push(event)),
        r.next(event).1 is Do ==> r.next(event).0.stage == DestroyStageView::Destroying(
            reached(pool, events.push(event)),
        ),
{
    assert(events.push(event).drop_last() =~= events);
}

/// A request can go on after exactly those events that tell how the action that is under way
/// went.
pub proof fn law_requests_await(r: CreateOrImportView, d: DestroyRequestView, event: EventView)
    ensures
        r.awaits(event) <==> (r.pending() matches Some(action) && answers(event, action)),
        d.awaits(event) <==> (d.pending() matches Some(action) && answers(event, action)),
{
}

} // verus!
