//! Creating a pool on a base bdev.

use vstd::prelude::*;

use crate::jsonrpc::{result_view, Code, ErrorView, JsonRpcError};
use crate::pool::{Pool, PoolView};
use crate::steps::{answers, Action, ActionView, ClearMethod, Event, EventView, Step, StepView};
use crate::text::{around, behind, errno_text, with_errno};

verus! {

/// What the creation of a pool waits for.
#[derive(Debug, Clone, Copy, PartialEq, Eq, Structural)]
pub enum CreationStage {
    /// the base bdev
    Bdev,
    /// the start of the creation of the lvol store
    Store,
    /// the end of the creation of the lvol store
    Completion,
    /// the new pool
    Pool,
    /// nothing, it is over
    Over,
}

/// The creation of a pool.
#[derive(Debug, PartialEq, Eq)]
pub struct Creation {
    name: String,
    disk: String,
    stage: CreationStage,
}

/// The creation of a pool, with its texts as sequences of characters.
#[verifier::ext_equal]
pub struct CreationView {
    pub name: Seq<char>,
    pub disk: Seq<char>,
    pub stage: CreationStage,
}

impl View for Creation {
    type V = CreationView;

    closed spec fn view(&self) -> CreationView {
        CreationView { name: self.name@, disk: self.disk@, stage: self.stage }
    }
}

impl CreationView {
    /// How many events the operation can still take.
    pub open spec fn events_left(self) -> nat {
        match self.stage {
            CreationStage::Bdev => 4,
            CreationStage::Store => 3,
            CreationStage::Completion => 2,
            CreationStage::Pool => 1,
            CreationStage::Over => 0,
        }
    }

    /// The action that is under way. The pool is not cleared block by block: it is unmapped,
    /// which does nothing where it is not fast.
    pub open spec fn pending(self) -> Option<ActionView> {
        match self.stage {
            CreationStage::Bdev => Some(ActionView::FindBdev { name: self.disk }),
            CreationStage::Store => Some(
                ActionView::CreateStore {
                    bdev: self.disk,
                    name: self.name,
                    cluster_size: 0,
                    clear: ClearMethod::Unmap,
                },
            ),
            CreationStage::Completion => Some(ActionView::AwaitStore),
            CreationStage::Pool => Some(ActionView::FindPool { name: self.name }),
            CreationStage::Over => None,
        }
    }

    /// The event tells how the action that is under way went.
    pub open spec fn awaits(self, event: EventView) -> bool {
        self.pending() matches Some(action) && answers(event, action)
    }

    /// On to the action of a stage.
    pub open spec fn go(self, stage: CreationStage) -> (CreationView, StepView<PoolView>) {
        let next = CreationView { stage, ..self };
        (next, StepView::Do(next.pending()->0))
    }

    /// To the end.
    pub open spec fn stop(self, res: Result<PoolView, ErrorView>) -> (
        CreationView,
        StepView<PoolView>,
    ) {
        (CreationView { stage: CreationStage::Over, ..self }, StepView::Done(res))
    }

    pub open spec fn no_bdev(self) -> ErrorView {
        ErrorView {
            code: Code::NotFound,
            message: "Base bdev "@ + self.disk + " does not exist"@,
        }
    }

    pub open spec fn not_started(self) -> ErrorView {
        ErrorView {
            code: Code::InvalidParams,
            message: "Failed to create the pool "@ + self.name,
        }
    }

    pub open spec fn failed(self, errno: i32) -> ErrorView {
        ErrorView {
            code: Code::InvalidParams,
            message: "Failed to create the pool "@ + self.name + errno_text(errno as int),
        }
    }

    pub open spec fn disappeared(self) -> ErrorView {
        ErrorView {
            code: Code::InternalError,
            message: "The pool "@ + self.name + " disappeared"@,
        }
    }

    /// What comes after an event.
    pub open spec fn next(self, event: EventView) -> (CreationView, StepView<PoolView>) {
        match (self.stage, event) {
            (CreationStage::Bdev, EventView::Bdev(found)) => if found {
                self.go(CreationStage::Store)
            } else {
                self.stop(Err(self.no_bdev()))
            },
            (CreationStage::Store, EventView::Returned(rc)) => if rc < 0 {
                self.stop(Err(self.not_started()))
            } else {
                self.go(CreationStage::Completion)
            },
            (CreationStage::Completion, EventView::Ended(errno)) => if errno != 0 {
                self.stop(Err(self.failed(errno)))
            } else {
                self.go(CreationStage::Pool)
            },
            (CreationStage::Pool, EventView::Pool(pool)) => match pool {
                Some(pool) => self.stop(Ok(pool)),
                None => self.stop(Err(self.disappeared())),
            },
            _ => arbitrary(),
        }
    }
}

/// The creation of a pool before its first event.
pub open spec fn creation(name: Seq<char>, disk: Seq<char>) -> CreationView {
    CreationView { name, disk, stage: CreationStage::Bdev }
}

impl Pool {
    /// Create a pool on base bdev
    pub fn create(name: &str, disk: &str) -> (res: (Creation, Step<Pool>))
        ensures
            res.0@ == creation(name@, disk@),
            res.1@ == StepView::<PoolView>::Do(ActionView::FindBdev { name: disk@ }),
    {
        let creation = Creation {
            name: name.to_owned(),
            disk: disk.to_owned(),
            stage: CreationStage::Bdev,
        };
        (creation, Step::Do(Action::FindBdev { name: disk.to_owned() }))
    }
}

impl Creation {
    /// The action of the stage.
    fn action(&self) -> (action: Action)
        requires
            self.stage != CreationStage::Over,
        ensures
            self@.pending() == Some(action@),
    {
        match self.stage {
            CreationStage::Bdev => Action::FindBdev { name: self.disk.clone() },
            CreationStage::Store => Action::CreateStore {
                bdev: self.disk.clone(),
                name: self.name.clone(),
                cluster_size: 0,
                clear: ClearMethod::Unmap,
            },
            CreationStage::Completion => Action::AwaitStore,
            _ => Action::FindPool { name: self.name.clone() },
        }
    }

    fn go(self, stage: CreationStage) -> (res: (Creation, Step<Pool>))
        requires
            stage != CreationStage::Over,
        ensures
            (res.0@, res.1@) == self@.go(stage),
    {
        let next = Creation { name: self.name, disk: self.disk, stage };
        let action = next.action();
        (next, Step::Do(action))
    }

    fn stop(self, res: Result<Pool, JsonRpcError>) -> (out: (Creation, Step<Pool>))
        ensures
            (out.0@, out.1@) == self@.stop(result_view(res)),
    {
        let next = Creation { name: self.name, disk: self.disk, stage: CreationStage::Over };
        (next, Step::Done(res))
    }

    /// Goes on after an event.
    pub fn step(self, event: Event) -> (res: (Creation, Step<Pool>))
        requires
            self@.awaits(event@),
        ensures
            (res.0@, res.1@) == self@.next(event@),
    {
        match (self.stage, event) {
            (CreationStage::Bdev, Event::Bdev(found)) => {
                if found {
                    self.go(CreationStage::Store)
                } else {
                    let message = around("Base bdev ", self.disk.as_str(), " does not exist");
                    self.stop(Err(JsonRpcError::new(Code::NotFound, message)))
                }
            },
            (CreationStage::Store, Event::Returned(rc)) => {
                if rc < 0 {
                    let message = behind("Failed to create the pool ", self.name.as_str());
                    self.stop(Err(JsonRpcError::new(Code::InvalidParams, message)))
                } else {
                    self.go(CreationStage::Completion)
                }
            },
            (CreationStage::Completion, Event::Ended(errno)) => {
                if errno != 0 {
                    let message = with_errno("Failed to create the pool ", self.name.as_str(), errno);
                    self.stop(Err(JsonRpcError::new(Code::InvalidParams, message)))
                } else {
                    self.go(CreationStage::Pool)
                }
            },
            (_, Event::Pool(Some(pool))) => self.stop(Ok(pool)),
            _ => {
                let message = around("The pool ", self.name.as_str(), " disappeared");
                self.stop(Err(JsonRpcError::new(Code::InternalError, message)))
            },
        }
    }
}

/// After each step the operation waits for the action that it asked for, and for nothing
/// once it is over.
pub proof fn law_creation_waits_for_its_action(c: CreationView, event: EventView)
    requires
        c.awaits(event),
    ensures
        match c.next(event) {
            (next, StepView::Do(action)) => next.pending() == Some(action),
            (next, StepView::Done(_)) => next.pending() is None,
        },
{
}

/// The step after a number of events, of which those after the end are not used.
pub open spec fn creation_after(
    c: CreationView,
    step: StepView<PoolView>,
    events: Seq<EventView>,
) -> StepView<PoolView>
    decreases events.len(),
{
    if events.len() == 0 || step is Done {
        step
    } else {
        let (next, step) = c.next(events[0]);
        creation_after(next, step, events.drop_first())
    }
}

/// A pool is created if and only if the base bdev is there, the creation of the lvol store
/// starts and ends without an error, and the pool is there then; that pool is the result.
/// The first of these that fails decides the error.
pub proof fn law_creation_outcome(
    name: Seq<char>,
    disk: Seq<char>,
    found: bool,
    rc: i32,
    errno: i32,
    pool: Option<PoolView>,
)
    ensures
        ({
            let c = creation(name, disk);
            let first = StepView::<PoolView>::Do(c.pending()->0);
            let events = seq![
                EventView::Bdev(found),
                EventView::Returned(rc),
                EventView::Ended(errno),
                EventView::Pool(pool),
            ];
            creation_after(c, first, events) == StepView::Done(
                if !found {
                    Err(c.no_bdev())
                } else if rc < 0 {
                    Err(c.not_started())
                } else if errno != 0 {
                    Err(c.failed(errno))
                } else {
                    match pool {
                        Some(pool) => Ok(pool),
                        None => Err(c.disappeared()),
                    }
                },
            )
        }),
{
    reveal_with_fuel(creation_after, 5);
    let c = creation(name, disk);
    let events = seq![
        EventView::Bdev(found),
        EventView::Returned(rc),
        EventView::Ended(errno),
        EventView::Pool(pool),
    ];
    assert(events.drop_first()[0] == events[1]);
    assert(events.drop_first().drop_first()[0] == events[2]);
    assert(events.drop_first().drop_first().drop_first()[0] == events[3]);
}

/// Each event brings the creation nearer to its end, which comes after four at most.
pub proof fn law_creation_ends(c: CreationView, event: EventView)
    requires
        c.awaits(event),
    ensures
        c.next(event).0.events_left() < c.events_left() <= 4,
{
}

/// What the creation of a pool asks for and comes to, event by event: it looks for the base
/// bdev on the disk, starts to create an lvol store with the name of the pool on it, with
/// clusters of the default size, unmapped, awaits that, and looks the pool up.
pub proof fn law_creation_course(
    name: Seq<char>,
    disk: Seq<char>,
    rc: i32,
    errno: i32,
    pool: PoolView,
)
    ensures
        ({
            let c = creation(name, disk);
            let (c1, s1) = c.next(EventView::Bdev(true));
            let (c2, s2) = c1.next(EventView::Returned(rc));
            let (c3, s3) = c2.next(EventView::Ended(0));
            &&& c.pending() == Some(ActionView::FindBdev { name: disk })
            &&& c.next(EventView::Bdev(false)).1 == StepView::<PoolView>::Done(
                Err(
                    ErrorView {
                        code: Code::NotFound,
                        message: "Base bdev "@ + disk + " does not exist"@,
                    },
                ),
            )
            &&& s1 == StepView::<PoolView>::Do(
                ActionView::CreateStore {
                    bdev: disk,
                    name,
                    cluster_size: 0,
                    clear: ClearMethod::Unmap,
                },
            )
            &&& rc < 0 ==> s2 == StepView::<PoolView>::Done(
                Err(
                    ErrorView {
                        code: Code::InvalidParams,
                        message: "Failed to create the pool "@ + name,
                    },
                ),
            )
            &&& rc >= 0 ==> {
                &&& s2 == StepView::<PoolView>::Do(ActionView::AwaitStore)
                &&& errno != 0 ==> c2.next(EventView::Ended(errno)).1 == StepView::<PoolView>::Done(
                    Err(
                        ErrorView {
                            code: Code::InvalidParams,
                            message: "Failed to create the pool "@ + name + errno_text(errno as int),
                        },
                    ),
                )
                &&& s3 == StepView::<PoolView>::Do(ActionView::FindPool { name })
                &&& c3.next(EventView::Pool(Some(pool))).1 == StepView::<PoolView>::Done(Ok(pool))
                &&& c3.next(EventView::Pool(None)).1 == StepView::<PoolView>::Done(
                    Err(
                        ErrorView {
                            code: Code::InternalError,
                            message: "The pool "@ + name + " disappeared"@,
                        },
                    ),
                )
            }
        }),
{
}

/// The creation of a pool can go on after exactly those events that tell how the action that
/// is under way went.
pub proof fn law_creation_awaits(c: CreationView, event: EventView)
    ensures
        c.awaits(event) <==> (c.pending() matches Some(action) && answers(event, action)),
{
}

} // verus!
