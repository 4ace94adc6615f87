//! The steps of the operations on pools. An operation decides what is to be done, and
//! goes on when it is told how that went.

use vstd::prelude::*;

use crate::jsonrpc::{result_view, ErrorView, JsonRpcError};
use crate::pool::{Pool, PoolView, Replica, ReplicaView};

verus! {

/// How the blocks of a new lvol store are cleared.
#[derive(Debug, Clone, Copy, PartialEq, Eq, Structural)]
pub enum ClearMethod {
    /// By unmapping them, where that can be done fast.
    Unmap,
}

/// Something to be done for an operation.
#[derive(Debug, PartialEq, Eq)]
pub enum Action {
    /// Look for the bdev of that name.
    FindBdev { name: String },
    /// Create an AIO bdev on a file, with the file as its name.
    CreateBdev { file: String, block_size: u32 },
    /// Begin to create an lvol store on a bdev. A cluster size of 0 is the default one.
    CreateStore { bdev: String, name: String, cluster_size: u32, clear: ClearMethod },
    /// Wait for the lvol store.
    AwaitStore,
    /// Examine a bdev for an lvol store, and wait for the end of it.
    Examine { bdev: String },
    /// Look up the pool of that name.
    FindPool { name: String },
    /// Go to the next replica.
    NextReplica,
    /// Unshare the replica with that handle, and wait for the end of it.
    UnshareReplica { handle: usize },
    /// Destroy the lvol store of that name, and wait for the end of it.
    DestroyStore { name: String },
    /// Delete the AIO bdev of that name, and wait for the end of it.
    DeleteBdev { name: String },
}

/// How an action went.
#[derive(Debug, PartialEq, Eq)]
pub enum Event {
    /// Whether the bdev was found.
    Bdev(bool),
    /// The return code of a call that creates, or begins to create, something.
    Returned(i32),
    /// The error number that work ended with, 0 if it succeeded.
    Ended(i32),
    /// The pool, if there is one.
    Pool(Option<Pool>),
    /// The next replica, if there is one.
    Replica(Option<Replica>),
    /// Whether the replica is unshared now.
    Unshared(Result<(), JsonRpcError>),
}

/// What an operation comes to next.
#[derive(Debug, PartialEq, Eq)]
pub enum Step<T> {
    /// Something is to be done.
    Do(Action),
    /// The operation is over.
    Done(Result<T, JsonRpcError>),
}

/// An action with its texts as sequences of characters.
#[verifier::ext_equal]
pub enum ActionView {
    FindBdev { name: Seq<char> },
    CreateBdev { file: Seq<char>, block_size: u32 },
    CreateStore { bdev: Seq<char>, name: Seq<char>, cluster_size: u32, clear: ClearMethod },
    AwaitStore,
    Examine { bdev: Seq<char> },
    FindPool { name: Seq<char> },
    NextReplica,
    UnshareReplica { handle: usize },
    DestroyStore { name: Seq<char> },
    DeleteBdev { name: Seq<char> },
}

/// An event with its texts as sequences of characters.
#[verifier::ext_equal]
pub enum EventView {
    Bdev(bool),
    Returned(i32),
    Ended(i32),
    Pool(Option<PoolView>),
    Replica(Option<ReplicaView>),
    Unshared(Result<(), ErrorView>),
}

/// A step with its texts as sequences of characters.
#[verifier::ext_equal]
pub enum StepView<V> {
    Do(ActionView),
    Done(Result<V, ErrorView>),
}

impl View for Action {
    type V = ActionView;

    open spec fn view(&self) -> ActionView {
        match *self {
            Action::FindBdev { name } => ActionView::FindBdev { name: name@ },
            Action::CreateBdev { file, block_size } => ActionView::CreateBdev {
                file: file@,
                block_size,
            },
            Action::CreateStore { bdev, name, cluster_size, clear } => ActionView::CreateStore {
                bdev: bdev@,
                name: name@,
                cluster_size,
                clear,
            },
            Action::AwaitStore => ActionView::AwaitStore,
            Action::Examine { bdev } => ActionView::Examine { bdev: bdev@ },
            Action::FindPool { name } => ActionView::FindPool { name: name@ },
            Action::NextReplica => ActionView::NextReplica,
            Action::UnshareReplica { handle } => ActionView::UnshareReplica { handle },
            Action::DestroyStore { name } => ActionView::DestroyStore { name: name@ },
            Action::DeleteBdev { name } => ActionView::DeleteBdev { name: name@ },
        }
    }
}

impl View for Event {
    type V = EventView;

    open spec fn view(&self) -> EventView {
        match *self {
            Event::Bdev(found) => EventView::Bdev(found),
            Event::Returned(rc) => EventView::Returned(rc),
            Event::Ended(errno) => EventView::Ended(errno),
            Event::Pool(Some(pool)) => EventView::Pool(Some(pool@)),
            Event::Pool(None) => EventView::Pool(None),
            Event::Replica(Some(replica)) => EventView::Replica(Some(replica@)),
            Event::Replica(None) => EventView::Replica(None),
            Event::Unshared(res) => EventView::Unshared(result_view(res)),
        }
    }
}

impl<T: View> View for Step<T> {
    type V = StepView<T::V>;

    open spec fn view(&self) -> StepView<T::V> {
        match *self {
            Step::Do(action) => StepView::Do(action@),
            Step::Done(res) => StepView::Done(result_view(res)),
        }
    }
}

/// The event tells how the action went.
pub open spec fn answers(event: EventView, action: ActionView) -> bool {
    match action {
        ActionView::FindBdev { .. } => event is Bdev,
        ActionView::CreateBdev { .. } => event is Returned,
        ActionView::CreateStore { .. } => event is Returned,
        ActionView::AwaitStore => event is Ended,
        ActionView::Examine { .. } => event is Ended,
        ActionView::FindPool { .. } => event is Pool,
        ActionView::NextReplica => event is Replica,
        ActionView::UnshareReplica { .. } => event is Unshared,
        ActionView::DestroyStore { .. } => event is Ended,
        ActionView::DeleteBdev { .. } => event is Ended,
    }
}

/// What is said of an action is said of its texts and numbers.
pub proof fn law_action_as_it_is(action: Action)
    ensures
        match action {
            Action::FindBdev { name } => action@ == (ActionView::FindBdev { name: name@ }),
            Action::CreateBdev { file, block_size } => action@ == (ActionView::CreateBdev {
                file: file@,
                block_size,
            }),
            Action::CreateStore { bdev, name, cluster_size, clear } => action@ == (
            ActionView::CreateStore { bdev: bdev@, name: name@, cluster_size, clear }),
            Action::AwaitStore => action@ == ActionView::AwaitStore,
            Action::Examine { bdev } => action@ == (ActionView::Examine { bdev: bdev@ }),
            Action::FindPool { name } => action@ == (ActionView::FindPool { name: name@ }),
            Action::NextReplica => action@ == ActionView::NextReplica,
            Action::UnshareReplica { handle } => action@ == (ActionView::UnshareReplica { handle }),
            Action::DestroyStore { name } => action@ == (ActionView::DestroyStore { name: name@ }),
            Action::DeleteBdev { name } => action@ == (ActionView::DeleteBdev { name: name@ }),
        },
{
}

/// What is said of an event is said of what it tells.
pub proof fn law_event_as_it_is(event: Event)
    ensures
        match event {
            Event::Bdev(found) => event@ == EventView::Bdev(found),
            Event::Returned(rc) => event@ == EventView::Returned(rc),
            Event::Ended(errno) => event@ == EventView::Ended(errno),
            Event::Pool(Some(pool)) => event@ == EventView::Pool(Some(pool@)),
            Event::Pool(None) => event@ == EventView::Pool(None),
            Event::Replica(Some(replica)) => event@ == EventView::Replica(Some(replica@)),
            Event::Replica(None) => event@ == EventView::Replica(None),
            Event::Unshared(Ok(_)) => event@ == EventView::Unshared(Ok(())),
            Event::Unshared(Err(e)) => event@ matches EventView::Unshared(Err(err)) && err.code
                == e.code && err.message == e.message@,
        },
{
    if let Event::Unshared(Ok(v)) = event {
        assert(v@ == ());
    }
}

/// What is said of a step is said of its action, or of its result.
pub proof fn law_step_as_it_is<T: View>(step: Step<T>)
    ensures
        match step {
            Step::Do(action) => step@ == StepView::<T::V>::Do(action@),
            Step::Done(Ok(v)) => step@ == StepView::<T::V>::Done(Ok(v@)),
            Step::Done(Err(e)) => step@ matches StepView::Done(Err(err)) && err.code == e.code
                && err.message == e.message@,
        },
{
}

/// A search for a bdev, a pool or a replica is answered by what was found, the creation of
/// something by its return code, other work by its error number, and unsharing a replica by
/// its result; by nothing else.
pub proof fn law_answers(action: ActionView, event: EventView)
    ensures
        action is FindBdev ==> (answers(event, action) <==> event is Bdev),
        action is FindPool ==> (answers(event, action) <==> event is Pool),
        action is NextReplica ==> (answers(event, action) <==> event is Replica),
        action is CreateBdev || action is CreateStore ==> (answers(event, action)
            <==> event is Returned),
        action is AwaitStore || action is Examine || action is DestroyStore || action is DeleteBdev
            ==> (answers(event, action) <==> event is Ended),
        action is UnshareReplica ==> (answers(event, action) <==> event is Unshared),
{
}

} // verus!
