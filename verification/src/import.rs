//! Importing a pool from a disk.

use vstd::prelude::*;

use crate::jsonrpc::{result_view, Code, ErrorView, JsonRpcError};
use crate::pool::{Pool, PoolView};
use crate::steps::{answers, Action, ActionView, Event, EventView, Step, StepView};
use crate::text::{around, errno_text, with_errno};

verus! {

/// What the import of a pool waits for.
#[derive(Debug, Clone, Copy, PartialEq, Eq, Structural)]
pub enum ImportStage {
    /// the base bdev
    Bdev,
    /// the end of the examination of the bdev
    Examination,
    /// the imported pool
    Pool,
    /// nothing, it is over
    Over,
}

/// The import of a pool.
#[derive(Debug, PartialEq, Eq)]
pub struct Import {
    name: String,
    disk: String,
    stage: ImportStage,
}

/// The import of a pool, with its texts as sequences of characters.
#[verifier::ext_equal]
pub struct ImportView {
    pub name: Seq<char>,
    pub disk: Seq<char>,
    pub stage: ImportStage,
}

impl View for Import {
    type V = ImportView;

    closed spec fn view(&self) -> ImportView {
        ImportView { name: self.name@, disk: self.disk@, stage: self.stage }
    }
}

impl ImportView {
    /// How many events the operation can still take.
    pub open spec fn events_left(self) -> nat {
        match self.stage {
            ImportStage::Bdev => 3,
            ImportStage::Examination => 2,
            ImportStage::Pool => 1,
            ImportStage::Over => 0,
        }
    }

    /// The action that is under way.
    pub open spec fn pending(self) -> Option<ActionView> {
        match self.stage {
            ImportStage::Bdev => Some(ActionView::FindBdev { name: self.disk }),
            ImportStage::Examination => Some(ActionView::Examine { bdev: self.disk }),
            ImportStage::Pool => Some(ActionView::FindPool { name: self.name }),
            ImportStage::Over => None,
        }
    }

    /// The event tells how the action that is under way went.
    pub open spec fn awaits(self, event: EventView) -> bool {
        self.pending() matches Some(action) && answers(event, action)
    }

    /// On to the action of a stage.
    pub open spec fn go(self, stage: ImportStage) -> (ImportView, StepView<PoolView>) {
        let next = ImportView { stage, ..self };
        (next, StepView::Do(next.pending()->0))
    }

    /// To the end.
    pub open spec fn stop(self, res: Result<PoolView, ErrorView>) -> (
        ImportView,
        StepView<PoolView>,
    ) {
        (ImportView { stage: ImportStage::Over, ..self }, StepView::Done(res))
    }

    pub open spec fn no_bdev(self) -> ErrorView {
        ErrorView {
            code: Code::InternalError,
            message: "Base bdev "@ + self.disk + " does not exist"@,
        }
    }

    pub open spec fn failed(self, errno: i32) -> ErrorView {
        ErrorView {
            code: Code::InternalError,
            message: "Failed to import the pool "@ + self.name + errno_text(errno as int),
        }
    }

    pub open spec fn other_pool(self) -> ErrorView {
        ErrorView {
            code: Code::InvalidParams,
            message: "The device "@ + self.disk + " hosts another pool"@,
        }
    }

    /// What comes after an event. A pool with another name may have been imported: then
    /// the one that was asked for is not there.
    pub open spec fn next(self, event: EventView) -> (ImportView, StepView<PoolView>) {
        match (self.stage, event) {
            (ImportStage::Bdev, EventView::Bdev(found)) => if found {
                self.go(ImportStage::Examination)
            } else {
                self.stop(Err(self.no_bdev()))
            },
            (ImportStage::Examination, EventView::Ended(errno)) => if errno == 0 {
                self.go(ImportStage::Pool)
            } else {
                self.stop(Err(self.failed(errno)))
            },
            (ImportStage::Pool, EventView::Pool(pool)) => match pool {
                Some(pool) => self.stop(Ok(pool)),
                None => self.stop(Err(self.other_pool())),
            },
            _ => arbitrary(),
        }
    }
}

/// The import of a pool before its first event.
pub open spec fn import(name: Seq<char>, disk: Seq<char>) -> ImportView {
    ImportView { name, disk, stage: ImportStage::Bdev }
}

impl Pool {
    /// Import the pool from a disk
    pub fn import(name: &str, disk: &str) -> (res: (Import, Step<Pool>))
        ensures
            res.0@ == import(name@, disk@),
            res.1@ == StepView::<PoolView>::Do(ActionView::FindBdev { name: disk@ }),
    {
        let import = Import {
            name: name.to_owned(),
            disk: disk.to_owned(),
            stage: ImportStage::Bdev,
        };
        (import, Step::Do(Action::FindBdev { name: disk.to_owned() }))
    }
}

impl Import {
    /// The action of the stage.
    fn action(&self) -> (action: Action)
        requires
            self.stage != ImportStage::Over,
        ensures
            self@.pending() == Some(action@),
    {
        match self.stage {
            ImportStage::Bdev => Action::FindBdev { name: self.disk.clone() },
            ImportStage::Examination => Action::Examine { bdev: self.disk.clone() },
            _ => Action::FindPool { name: self.name.clone() },
        }
    }

    fn go(self, stage: ImportStage) -> (res: (Import, Step<Pool>))
        requires
            stage != ImportStage::Over,
        ensures
            (res.0@, res.1@) == self@.go(stage),
    {
        let next = Import { name: self.name, disk: self.disk, stage };
        let action = next.action();
        (next, Step::Do(action))
    }

    fn stop(self, res: Result<Pool, JsonRpcError>) -> (out: (Import, Step<Pool>))
        ensures
            (out.0@, out.1@) == self@.stop(result_view(res)),
    {
        let next = Import { name: self.name, disk: self.disk, stage: ImportStage::Over };
        (next, Step::Done(res))
    }

    /// Goes on after an event.
    pub fn step(self, event: Event) -> (res: (Import, Step<Pool>))
        requires
            self@.awaits(event@),
        ensures
            (res.0@, res.1@) == self@.next(event@),
    {
        match (self.stage, event) {
            (ImportStage::Bdev, Event::Bdev(found)) => {
                if found {
                    self.go(ImportStage::Examination)
                } else {
                    let message = around("Base bdev ", self.disk.as_str(), " does not exist");
                    self.stop(Err(JsonRpcError::new(Code::InternalError, message)))
                }
            },
            (ImportStage::Examination, Event::Ended(errno)) => {
                if errno == 0 {
                    self.go(ImportStage::Pool)
                } else {
                    let message = with_errno("Failed to import the pool ", self.name.as_str(), errno);
                    self.stop(Err(JsonRpcError::new(Code::InternalError, message)))
                }
            },
            (_, Event::Pool(Some(pool))) => self.stop(Ok(pool)),
            _ => {
                let message = around("The device ", self.disk.as_str(), " hosts another pool");
                self.stop(Err(JsonRpcError::new(Code::InvalidParams, message)))
            },
        }
    }
}

/// After each step the operation waits for the action that it asked for, and for nothing
/// once it is over.
pub proof fn law_import_waits_for_its_action(i: ImportView, event: EventView)
    requires
        i.awaits(event),
    ensures
        match i.next(event) {
            (next, StepView::Do(action)) => next.pending() == Some(action),
            (next, StepView::Done(_)) => next.pending() is None,
        },
{
}

/// The step after a number of events, of which those after the end are not used.
pub open spec fn import_after(
    i: ImportView,
    step: StepView<PoolView>,
    events: Seq<EventView>,
) -> StepView<PoolView>
    decreases events.len(),
{
    if events.len() == 0 || step is Done {
        step
    } else {
        let (next, step) = i.next(events[0]);
        import_after(next, step, events.drop_first())
    }
}

/// A pool is imported if and only if the base bdev is there, its examination ends without
/// an error, and the pool with that name is there then; that pool is the result. The
/// first of these that fails decides the error.
pub proof fn law_import_outcome(
    name: Seq<char>,
    disk: Seq<char>,
    found: bool,
    errno: i32,
    pool: Option<PoolView>,
)
    ensures
        ({
            let i = import(name, disk);
            let first = StepView::<PoolView>::Do(i.pending()->0);
            let events = seq![
                EventView::Bdev(found),
                EventView::Ended(errno),
                EventView::Pool(pool),
            ];
            import_after(i, first, events) == StepView::Done(
                if !found {
                    Err(i.no_bdev())
                } else if errno != 0 {
                    Err(i.failed(errno))
                } else {
                    match pool {
                        Some(pool) => Ok(pool),
                        None => Err(i.other_pool()),
                    }
                },
            )
        }),
{
    reveal_with_fuel(import_after, 4);
    let events = seq![EventView::Bdev(found), EventView::Ended(errno), EventView::Pool(pool)];
    assert(events.drop_first()[0] == events[1]);
    assert(events.drop_first().drop_first()[0] == events[2]);
}

/// Each event brings the import nearer to its end, which comes after three at most.
pub proof fn law_import_ends(i: ImportView, event: EventView)
    requires
        i.awaits(event),
    ensures
        i.next(event).0.events_left() < i.events_left() <= 3,
{
}

/// What the import of a pool asks for and comes to, event by event: it looks for the base
/// bdev on the disk, has it examined, and looks the pool up.
pub proof fn law_import_course(name: Seq<char>, disk: Seq<char>, errno: i32, pool: PoolView)
    ensures
        ({
            let i = import(name, disk);
            let (i1, s1) = i.next(EventView::Bdev(true));
            let (i2, s2) = i1.next(EventView::Ended(0));
            &&& i.pending() == Some(ActionView::FindBdev { name: disk })
            &&& i.next(EventView::Bdev(false)).1 == StepView::<PoolView>::Done(
                Err(
                    ErrorView {
                        code: Code::InternalError,
                        message: "Base bdev "@ + disk + " does not exist"@,
                    },
                ),
            )
            &&& s1 == StepView::<PoolView>::Do(ActionView::Examine { bdev: disk })
            &&& errno != 0 ==> i1.next(EventView::Ended(errno)).1 == StepView::<PoolView>::Done(
                Err(
                    ErrorView {
                        code: Code::InternalError,
                        message: "Failed to import the pool "@ + name + errno_text(errno as int),
                    },
                ),
            )
            &&& s2 == StepView::<PoolView>::Do(ActionView::FindPool { name })
            &&& i2.next(EventView::Pool(Some(pool))).1 == StepView::<PoolView>::Done(Ok(pool))
            &&& i2.next(EventView::Pool(None)).1 == StepView::<PoolView>::Done(
                Err(
                    ErrorView {
                        code: Code::InvalidParams,
                        message: "The device "@ + disk + " hosts another pool"@,
                    },
                ),
            )
        }),
{
}

/// The import of a pool can go on after exactly those events that tell how the action that
/// is under way went.
pub proof fn law_import_awaits(i: ImportView, event: EventView)
    ensures
        i.awaits(event) <==> (i.pending() matches Some(action) && answers(event, action)),
{
}

} // verus!
