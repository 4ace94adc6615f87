//! Destroying a pool.

use vstd::prelude::*;

use crate::jsonrpc::{result_view, Code, ErrorView, JsonRpcError};
use crate::pool::{Pool, PoolView, ReplicaView};
use crate::steps::{answers, Action, ActionView, Event, EventView, Step, StepView};
use crate::text::{around, errno_text, with_errno};

verus! {

/// What the destruction of a pool waits for.
#[derive(Debug, Clone, Copy, PartialEq, Eq, Structural)]
pub enum DestructionStage {
    /// the next replica
    Replica,
    /// the end of unsharing a replica of the pool
    Unsharing { handle: usize },
    /// the end of the destruction of the lvol store
    Store,
    /// the base bdev
    Bdev,
    /// the end of the deletion of the base bdev
    Deletion,
    /// nothing, it is over
    Over,
}

/// The destruction of a pool.
#[derive(Debug, PartialEq, Eq)]
pub struct Destruction {
    name: String,
    base_bdev: String,
    stage: DestructionStage,
}

/// The destruction of a pool, with its texts as sequences of characters.
#[verifier::ext_equal]
pub struct DestructionView {
    pub name: Seq<char>,
    pub base_bdev: Seq<char>,
    pub stage: DestructionStage,
}

impl View for Destruction {
    type V = DestructionView;

    closed spec fn view(&self) -> DestructionView {
        DestructionView { name: self.name@, base_bdev: self.base_bdev@, stage: self.stage }
    }
}

impl DestructionView {
    /// The action that is under way.
    pub open spec fn pending(self) -> Option<ActionView> {
        match self.stage {
            DestructionStage::Replica => Some(ActionView::NextReplica),
            DestructionStage::Unsharing { handle } => Some(ActionView::UnshareReplica { handle }),
            DestructionStage::Store => Some(ActionView::DestroyStore { name: self.name }),
            DestructionStage::Bdev => Some(ActionView::FindBdev { name: self.base_bdev }),
            DestructionStage::Deletion => Some(ActionView::DeleteBdev { name: self.base_bdev }),
            DestructionStage::Over => None,
        }
    }

    /// The event tells how the action that is under way went.
    pub open spec fn awaits(self, event: EventView) -> bool {
        self.pending() matches Some(action) && answers(event, action)
    }

    /// On to the action of a stage.
    pub open spec fn go(self, stage: DestructionStage) -> (DestructionView, StepView<()>) {
        let next = DestructionView { stage, ..self };
        (next, StepView::Do(next.pending()->0))
    }

    /// To the end.
    pub open spec fn stop(self, res: Result<(), ErrorView>) -> (DestructionView, StepView<()>) {
        (DestructionView { stage: DestructionStage::Over, ..self }, StepView::Done(res))
    }

    pub open spec fn store_failed(self, errno: i32) -> ErrorView {
        ErrorView {
            code: Code::InternalError,
            message: "Failed to destroy pool "@ + self.name + errno_text(errno as int),
        }
    }

    pub open spec fn bdev_failed(self, errno: i32) -> ErrorView {
        ErrorView {
            code: Code::InternalError,
            message: "Failed to destroy base bdev "@ + self.base_bdev + " for the pool "@ + self.name
                + errno_text(errno as int),
        }
    }

    /// What comes after an event. It is no error if the base bdev has disappeared.
    pub open spec fn next(self, event: EventView) -> (DestructionView, StepView<()>) {
        match (self.stage, event) {
            (DestructionStage::Replica, EventView::Replica(replica)) => match replica {
                Some(replica) => if replica.pool_name == self.name {
                    self.go(DestructionStage::Unsharing { handle: replica.handle })
                } else {
                    self.go(DestructionStage::Replica)
                },
                None => self.go(DestructionStage::Store),
            },
            (DestructionStage::Unsharing { .. }, EventView::Unshared(res)) => match res {
                Ok(_) => self.go(DestructionStage::Replica),
                Err(e) => self.stop(Err(e)),
            },
            (DestructionStage::Store, EventView::Ended(errno)) => if errno != 0 {
                self.stop(Err(self.store_failed(errno)))
            } else {
                self.go(DestructionStage::Bdev)
            },
            (DestructionStage::Bdev, EventView::Bdev(found)) => if found {
                self.go(DestructionStage::Deletion)
            } else {
                self.stop(Ok(()))
            },
            (DestructionStage::Deletion, EventView::Ended(errno)) => if errno != 0 {
                self.stop(Err(self.bdev_failed(errno)))
            } else {
                self.stop(Ok(()))
            },
            _ => arbitrary(),
        }
    }
}

/// The destruction of a pool before its first event.
pub open spec fn destruction(pool: PoolView) -> DestructionView {
    DestructionView {
        name: pool.name,
        base_bdev: pool.base_bdev,
        stage: DestructionStage::Replica,
    }
}

impl Pool {
    /// Destroy the pool
    pub fn destroy(self) -> (res: (Destruction, Step<()>))
        ensures
            res.0@ == destruction(self@),
            res.1@ == StepView::<()>::Do(ActionView::NextReplica),
    {
        let destruction = Destruction {
            name: self.get_name().to_owned(),
            base_bdev: self.get_base_bdev().name(),
            stage: DestructionStage::Replica,
        };
        (destruction, Step::Do(Action::NextReplica))
    }
}

impl Destruction {
    /// The action of the stage.
    fn action(&self) -> (action: Action)
        requires
            self.stage != DestructionStage::Over,
        ensures
            self@.pending() == Some(action@),
    {
        match self.stage {
            DestructionStage::Replica => Action::NextReplica,
            DestructionStage::Unsharing { handle } => Action::UnshareReplica { handle },
            DestructionStage::Store => Action::DestroyStore { name: self.name.clone() },
            DestructionStage::Bdev => Action::FindBdev { name: self.base_bdev.clone() },
            _ => Action::DeleteBdev { name: self.base_bdev.clone() },
        }
    }

    fn go(self, stage: DestructionStage) -> (res: (Destruction, Step<()>))
        requires
            stage != DestructionStage::Over,
        ensures
            (res.0@, res.1@) == self@.go(stage),
    {
        let next = Destruction { name: self.name, base_bdev: self.base_bdev, stage };
        let action = next.action();
        (next, Step::Do(action))
    }

    fn stop(self, res: Result<(), JsonRpcError>) -> (out: (Destruction, Step<()>))
        ensures
            (out.0@, out.1@) == self@.stop(result_view(res)),
    {
        let next = Destruction {
            name: self.name,
            base_bdev: self.base_bdev,
            stage: DestructionStage::Over,
        };
        (next, Step::Done(res))
    }

    /// Goes on after an event.
    pub fn step(self, event: Event) -> (res: (Destruction, Step<()>))
        requires
            self@.awaits(event@),
        ensures
            (res.0@, res.1@) == self@.next(event@),
    {
        match (self.stage, event) {
            (DestructionStage::Replica, Event::Replica(Some(replica))) => {
                if replica.pool_name == self.name {
                    self.go(DestructionStage::Unsharing { handle: replica.handle })
                } else {
                    self.go(DestructionStage::Replica)
                }
            },
            (DestructionStage::Replica, _) => self.go(DestructionStage::Store),
            (DestructionStage::Unsharing { .. }, Event::Unshared(res)) => match res {
                Ok(_) => self.go(DestructionStage::Replica),
                Err(e) => self.stop(Err(e)),
            },
            (DestructionStage::Store, Event::Ended(errno)) => {
                if errno != 0 {
                    let message = with_errno("Failed to destroy pool ", self.name.as_str(), errno);
                    self.stop(Err(JsonRpcError::new(Code::InternalError, message)))
                } else {
                    self.go(DestructionStage::Bdev)
                }
            },
            (DestructionStage::Bdev, Event::Bdev(found)) => {
                if found {
                    self.go(DestructionStage::Deletion)
                } else {
                    self.stop(Ok(()))
                }
            },
            (_, Event::Ended(errno)) => {
                if errno != 0 {
                    let bdev = around(
                        "Failed to destroy base bdev ",
                        self.base_bdev.as_str(),
                        " for the pool ",
                    );
                    let message = with_errno(bdev.as_str(), self.name.as_str(), errno);
                    self.stop(Err(JsonRpcError::new(Code::InternalError, message)))
                } else {
                    self.stop(Ok(()))
                }
            },
            _ => self.stop(Ok(())),
        }
    }
}

/// After each step the operation waits for the action that it asked for, and for nothing
/// once it is over.
pub proof fn law_destruction_waits_for_its_action(d: DestructionView, event: EventView)
    requires
        d.awaits(event),
    ensures
        match d.next(event) {
            (next, StepView::Do(action)) => next.pending() == Some(action),
            (next, StepView::Done(_)) => next.pending() is None,
        },
{
}

/// The step after a number of events, of which those after the end are not used.
pub open spec fn destruction_after(
    d: DestructionView,
    step: StepView<()>,
    events: Seq<EventView>,
) -> StepView<()>
    decreases events.len(),
{
    if events.len() == 0 || step is Done {
        step
    } else {
        let (next, step) = d.next(events[0]);
        destruction_after(next, step, events.drop_first())
    }
}

/// A replica, and how unsharing it goes where it is tried.
pub type UnshareAttempt = (ReplicaView, Result<(), ErrorView>);

/// The events of going through all replicas, and of unsharing those of a pool.
pub open spec fn replica_events(name: Seq<char>, replicas: Seq<UnshareAttempt>) -> Seq<EventView>
    decreases replicas.len(),
{
    if replicas.len() == 0 {
        seq![EventView::Replica(None)]
    } else {
        let (replica, res) = replicas[0];
        let rest = replica_events(name, replicas.drop_first());
        if replica.pool_name == name {
            seq![EventView::Replica(Some(replica)), EventView::Unshared(res)] + rest
        } else {
            seq![EventView::Replica(Some(replica))] + rest
        }
    }
}

/// The error of the first replica of a pool that cannot be unshared, if there is one.
pub open spec fn unshare_failure(name: Seq<char>, replicas: Seq<UnshareAttempt>) -> Option<ErrorView>
    decreases replicas.len(),
{
    if replicas.len() == 0 {
        None
    } else if replicas[0].0.pool_name == name && replicas[0].1 is Err {
        Some(replicas[0].1->Err_0)
    } else {
        unshare_failure(name, replicas.drop_first())
    }
}

/// What the destruction of a pool comes to once its replicas are unshared.
pub open spec fn store_outcome(
    d: DestructionView,
    errno: i32,
    found: bool,
    bdev_errno: i32,
) -> Result<(), ErrorView> {
    if errno != 0 {
        Err(d.store_failed(errno))
    } else if found && bdev_errno != 0 {
        Err(d.bdev_failed(bdev_errno))
    } else {
        Ok(())
    }
}

/// The events of destroying the lvol store and the base bdev.
pub open spec fn store_events(errno: i32, found: bool, bdev_errno: i32) -> Seq<EventView> {
    seq![EventView::Ended(errno), EventView::Bdev(found), EventView::Ended(bdev_errno)]
}

proof fn lemma_store_outcome(
    d: DestructionView,
    errno: i32,
    found: bool,
    bdev_errno: i32,
)
    requires
        d.stage == DestructionStage::Store,
    ensures
        destruction_after(
            d,
            StepView::Do(d.pending()->0),
            store_events(errno, found, bdev_errno),
        ) == StepView::<()>::Done(store_outcome(d, errno, found, bdev_errno)),
{
    reveal_with_fuel(destruction_after, 4);
    let events = store_events(errno, found, bdev_errno);
    assert(events.drop_first()[0] == events[1]);
    assert(events.drop_first().drop_first()[0] == events[2]);
}

/// The outcome from any point between two replicas on.
proof fn lemma_outcome_from(
    d: DestructionView,
    replicas: Seq<UnshareAttempt>,
    errno: i32,
    found: bool,
    bdev_errno: i32,
)
    requires
        d.stage == DestructionStage::Replica,
    ensures
        destruction_after(
            d,
            StepView::Do(ActionView::NextReplica),
            replica_events(d.name, replicas) + store_events(errno, found, bdev_errno),
        ) == StepView::<()>::Done(
            match unshare_failure(d.name, replicas) {
                Some(e) => Err(e),
                None => store_outcome(d, errno, found, bdev_errno),
            },
        ),
    decreases replicas.len(),
{
    let first = StepView::<()>::Do(ActionView::NextReplica);
    let tail = store_events(errno, found, bdev_errno);
    let events = replica_events(d.name, replicas) + tail;
    let (next, step) = d.next(events[0]);
    assert(destruction_after(d, first, events) == destruction_after(
        next,
        step,
        events.drop_first(),
    ));
    if replicas.len() == 0 {
        assert(events.drop_first() =~= tail);
        lemma_store_outcome(next, errno, found, bdev_errno);
    } else {
        let (replica, res) = replicas[0];
        let rest = replica_events(d.name, replicas.drop_first()) + tail;
        lemma_outcome_from(d, replicas.drop_first(), errno, found, bdev_errno);
        if replica.pool_name == d.name {
            let (after, last) = next.next(events[1]);
            assert(events[1] == EventView::Unshared(res));
            assert(events.drop_first()[0] == events[1]);
            assert(events.drop_first().drop_first() =~= rest);
            assert(destruction_after(next, step, events.drop_first()) == destruction_after(
                after,
                last,
                rest,
            ));
            if res is Ok {
                assert(after =~= d);
            }
        } else {
            assert(events.drop_first() =~= rest);
            assert(next =~= d);
        }
    }
}

/// A pool is destroyed if and only if every replica on it is unshared, its lvol store is
/// destroyed without an error, and then its base bdev is deleted without an error or is
/// not there any more. The first of these that fails decides the error. Replicas on other
/// pools do not matter.
pub proof fn law_destruction_outcome(
    pool: PoolView,
    replicas: Seq<UnshareAttempt>,
    errno: i32,
    found: bool,
    bdev_errno: i32,
)
    ensures
        ({
            let d = destruction(pool);
            let first = StepView::<()>::Do(d.pending()->0);
            let events = replica_events(pool.name, replicas) + store_events(
                errno,
                found,
                bdev_errno,
            );
            destruction_after(d, first, events) == StepView::<()>::Done(
                match unshare_failure(pool.name, replicas) {
                    Some(e) => Err(e),
                    None => store_outcome(d, errno, found, bdev_errno),
                },
            )
        }),
{
    lemma_outcome_from(destruction(pool), replicas, errno, found, bdev_errno);
}

/// The destruction of a pool after the given events.
pub open spec fn reached(pool: PoolView, events: Seq<EventView>) -> DestructionView
    decreases events.len(),
{
    if events.len() == 0 {
        destruction(pool)
    } else {
        reached(pool, events.drop_last()).next(events.last()).0
    }
}

/// Each event tells how the action went that was under way.
pub open spec fn history(pool: PoolView, events: Seq<EventView>) -> bool
    decreases events.len(),
{
    events.len() == 0 || {
        &&& history(pool, events.drop_last())
        &&& reached(pool, events.drop_last()).awaits(events.last())
    }
}

/// Event number `k` tells of a replica of the pool.
pub open spec fn own_replica(pool: PoolView, events: Seq<EventView>, k: int) -> bool {
    0 <= k < events.len() && (events[k] matches EventView::Replica(Some(replica))
        && replica.pool_name == pool.name)
}

/// The handle of the replica that event number `k` tells of.
pub open spec fn handle_at(events: Seq<EventView>, k: int) -> usize {
    events[k]->Replica_0->Some_0.handle
}

/// Event number `k` tells that a replica has been unshared.
pub open spec fn unshared(events: Seq<EventView>, k: int) -> bool {
    0 <= k < events.len() && events[k] == EventView::Unshared(Ok(()))
}

/// Only replicas of the pool are unshared, each when it has been seen. The lvol store of
/// the pool is not destroyed before the last replica has been seen and every replica of the
/// pool has been unshared. The base bdev is not looked for, and not deleted, before the lvol store is destroyed, and not
/// deleted if it is not there.
pub proof fn law_destruction_order(pool: PoolView, events: Seq<EventView>)
    requires
        history(pool, events),
    ensures
        ({
            let d = reached(pool, events);
            let last = events.len() - 1;
            &&& d.name == pool.name && d.base_bdev == pool.base_bdev
            &&& forall|k: int|
                0 <= k < events.len() && (#[trigger] events[k]) is Unshared ==> own_replica(
                    pool,
                    events,
                    k - 1,
                )
            &&& d.stage is Unsharing ==> {
                &&& own_replica(pool, events, last)
                &&& d.pending() == Some(
                    ActionView::UnshareReplica { handle: handle_at(events, last) },
                )
            }
            &&& d.stage != DestructionStage::Over ==> forall|k: int|
                #[trigger] own_replica(pool, events, k) ==> unshared(events, k + 1) || (k == last
                    && d.stage is Unsharing)
            &&& d.stage == DestructionStage::Store ==> {
                &&& events.last() == EventView::Replica(None)
                &&& d.pending() == Some(ActionView::DestroyStore { name: pool.name })
            }
            &&& d.stage == DestructionStage::Bdev ==> {
                &&& d.pending() == Some(ActionView::FindBdev { name: pool.base_bdev })
                &&& last > 0
                &&& events[last - 1] == EventView::Replica(None)
                &&& events[last] == EventView::Ended(0)
            }
            &&& d.stage == DestructionStage::Deletion ==> {
                &&& d.pending() == Some(ActionView::DeleteBdev { name: pool.base_bdev })
                &&& last > 1
                &&& events[last - 2] == EventView::Replica(None)
                &&& events[last - 1] == EventView::Ended(0)
                &&& events[last] == EventView::Bdev(true)
            }
        }),
    decreases events.len(),
{
    if events.len() > 0 {
        let before = events.drop_last();
        law_destruction_order(pool, before);
        let d = reached(pool, events);
        let last = events.len() - 1;
        assert forall|k: int| 0 <= k < events.len() && (#[trigger] events[k]) is Unshared implies
            own_replica(pool, events, k - 1) by {
            if k < last {
                assert(before[k] is Unshared);
                assert(own_replica(pool, before, k - 1));
            } else {
                assert(own_replica(pool, before, k - 1));
            }
        }
        if d.stage != DestructionStage::Over {
            assert forall|k: int| #[trigger] own_replica(pool, events, k) implies unshared(
                events,
                k + 1,
            ) || (k == last && d.stage is Unsharing) by {
                let b = reached(pool, before);
                if k < last {
                    assert(own_replica(pool, before, k));
                    if k == last - 1 && b.stage is Unsharing {
                        assert(events[last] is Unshared);
                        assert(events[last]->Unshared_0 is Ok);
                        assert(events[last]->Unshared_0->Ok_0 == ());
                    } else {
                        assert(unshared(before, k + 1));
                    }
                } else {
                    assert(b.stage == DestructionStage::Replica);
                }
            }
        }
    }
}

/// A replica that cannot be unshared ends the destruction with its error, before the lvol
/// store is touched.
pub proof fn law_failed_unshare_keeps_the_pool(
    pool: PoolView,
    events: Seq<EventView>,
    e: ErrorView,
)
    requires
        history(pool, events),
        reached(pool, events).stage is Unsharing,
    ensures
        reached(pool, events).next(EventView::Unshared(Err(e))).1 == StepView::<()>::Done(Err(e)),
        forall|k: int| 0 <= k < events.len() ==> !((#[trigger] events[k]) is Ended),
{
    lemma_store_comes_after_replicas(pool, events);
}

/// While replicas are looked for, nothing has been destroyed.
proof fn lemma_store_comes_after_replicas(pool: PoolView, events: Seq<EventView>)
    requires
        history(pool, events),
    ensures
        ({
            let stage = reached(pool, events).stage;
            stage == DestructionStage::Replica || stage is Unsharing || stage
                == DestructionStage::Store
        }) ==> forall|k: int| 0 <= k < events.len() ==> !((#[trigger] events[k]) is Ended),
    decreases events.len(),
{
    if events.len() > 0 {
        let before = events.drop_last();
        lemma_store_comes_after_replicas(pool, before);
        let b = reached(pool, before);
        let stage = reached(pool, events).stage;
        if stage == DestructionStage::Replica || stage is Unsharing || stage
            == DestructionStage::Store {
            assert forall|k: int| 0 <= k < events.len() implies !((#[trigger] events[k]) is Ended) by {
                if k < events.len() - 1 {
                    assert(!(before[k] is Ended));
                }
            }
        }
    }
}

/// What the destruction of a pool asks for after the given events.
pub open spec fn asked(pool: PoolView, events: Seq<EventView>) -> Option<ActionView> {
    reached(pool, events).pending()
}

/// The step that the last of the given events leads to.
pub open spec fn last_step(pool: PoolView, events: Seq<EventView>) -> StepView<()> {
    reached(pool, events.drop_last()).next(events.last()).1
}

/// What the destruction of a pool asks for and comes to is decided by what it was told last.
/// It begins with the first replica. A replica of the pool is unshared, and any other is
/// passed over. A replica that cannot be unshared ends it. After the last replica the lvol
/// store with the name of the pool is destroyed, and after that the base bdev of the pool is
/// looked for and, if it is there, deleted.
pub proof fn law_destruction_course(pool: PoolView, events: Seq<EventView>)
    requires
        history(pool, events),
    ensures
        events.len() == 0 ==> {
            &&& reached(pool, events) == destruction(pool)
            &&& asked(pool, events) == Some(ActionView::NextReplica)
        },
        events.len() > 0 ==> reached(pool, events) == reached(pool, events.drop_last()).next(
            events.last(),
        ).0,
        events.len() > 0 ==> {
            let step = last_step(pool, events);
            let next = asked(pool, events);
            let told_before = events[events.len() - 2];
            match events.last() {
                EventView::Replica(Some(replica)) => if replica.pool_name == pool.name {
                    next == Some(ActionView::UnshareReplica { handle: replica.handle })
                } else {
                    next == Some(ActionView::NextReplica)
                },
                EventView::Replica(None) => next == Some(
                    ActionView::DestroyStore { name: pool.name },
                ),
                EventView::Unshared(Ok(_)) => next == Some(ActionView::NextReplica),
                EventView::Unshared(Err(e)) => step == StepView::<()>::Done(Err(e)),
                EventView::Ended(errno) => events.len() > 1 && match told_before {
                    EventView::Replica(None) => if errno == 0 {
                        next == Some(ActionView::FindBdev { name: pool.base_bdev })
                    } else {
                        step == StepView::<()>::Done(
                            Err(
                                ErrorView {
                                    code: Code::InternalError,
                                    message: "Failed to destroy pool "@ + pool.name + errno_text(
                                        errno as int,
                                    ),
                                },
                            ),
                        )
                    },
                    EventView::Bdev(true) => if errno == 0 {
                        step == StepView::<()>::Done(Ok(()))
                    } else {
                        step == StepView::<()>::Done(
                            Err(
                                ErrorView {
                                    code: Code::InternalError,
                                    message: "Failed to destroy base bdev "@ + pool.base_bdev
                                        + " for the pool "@ + pool.name + errno_text(errno as int),
                                },
                            ),
                        )
                    },
                    _ => false,
                },
                EventView::Bdev(found) => if found {
                    next == Some(ActionView::DeleteBdev { name: pool.base_bdev })
                } else {
                    step == StepView::<()>::Done(Ok(()))
                },
                _ => false,
            }
        },
        events.len() > 0 ==> match last_step(pool, events) {
            StepView::Do(action) => asked(pool, events) == Some(action),
            StepView::Done(_) => asked(pool, events) is None,
        },
{
    if events.len() > 0 {
        let before = events.drop_last();
        law_destruction_order(pool, before);
        law_destruction_waits_for_its_action(reached(pool, before), events.last());
        if before.len() > 0 {
            assert(events[events.len() - 2] == before.last());
        }
    }
}

/// The destruction of a pool can go on after exactly those events that tell how the action
/// that is under way went.
pub proof fn law_destruction_awaits(d: DestructionView, event: EventView)
    ensures
        d.awaits(event) <==> (d.pending() matches Some(action) && answers(event, action)),
{
}

} // verus!
