//! What every operation keeps.

use crate::commit::{commit_begun, CommitProgress, CommitView};
use crate::laws::world::{consistent, visible, World};
use crate::listing::{
    directory_begun, listing_begun, DirectoryContents, DirectoryListingView, ListingProgress,
    ListingView,
};
use crate::local_cache::{admitted, closed, CacheView};
use crate::operation::{begun, Operation, OperationProgress, Request};
use crate::protocol::{Error, Reply, StoreError, SyncReply};
use crate::pull::{pull_begun, PullProgress, PullView};
use crate::removal::Removal;
use vstd::prelude::*;

verus! {

/// A cache without local changes is in order, whatever the two stores hold.
pub proof fn law_unchanged_is_consistent<S, P>(state: CacheView<S>, world: World<P>)
    requires
        state.dirty == Map::<Seq<char>, u64>::empty(),
        state.deleted == Map::<Seq<char>, u64>::empty(),
    ensures
        consistent(state, world),
        visible(state, world) == world.remote.union_prefer_right(world.cache),
{
}

/// A closed cache refuses every operation that is begun from then on, with the same error: reads
/// and writes of single objects, also the further parts and the completion of a write in parts,
/// streams of deletions, listings, pulls and commits.
pub proof fn law_closed_refuses<S, P, A, D, E>(
    state: CacheView<S>,
    request: Request<Seq<char>>,
    prefix: Option<Seq<char>>,
    after: CacheView<S>,
    commit: CommitProgress<CommitView, Seq<char>, P, E>,
)
    requires
        state.closed,
        commit_begun(state, after, commit),
    ensures
        begun::<S, P, A, E>(request, state) == OperationProgress::<Seq<char>, P, A, E>::Finish(
            Err(closed()),
        ),
        admitted::<S, Seq<char>, E>(state) == Err::<(), Error<Seq<char>, E>>(closed()),
        pull_begun::<S, P, E>(state) == PullProgress::<PullView, Seq<char>, P, E>::Finish(
            Err(closed()),
        ),
        commit == CommitProgress::<CommitView, Seq<char>, P, E>::Finish(Err(closed())),
        after == state,
        listing_begun::<S, D, E>(prefix, state) == ListingProgress::<
            ListingView<D>,
            Seq<char>,
            Map<Seq<char>, D>,
            E,
        >::Finish(Err(closed())),
        directory_begun::<S, D, E>(state) == ListingProgress::<
            DirectoryListingView<D>,
            Seq<char>,
            DirectoryContents<D>,
            E,
        >::Finish(Err(closed())),
{
}

/// The state differs in the record of changes alone: it has the same stores and the same prefix,
/// and it is open or closed as before.
pub open spec fn same_setup<S>(a: CacheView<S>, b: CacheView<S>) -> bool {
    a == (CacheView {
        dirty: a.dirty,
        deleted: a.deleted,
        change_generation: a.change_generation,
        ..b
    })
}

/// No reply reopens a closed cache, nor closes an open one, nor exchanges its stores.
pub proof fn law_setup_stays<S, P, A, O, E>(
    state: CacheView<S>,
    operation: Operation<Seq<char>>,
    reply: Reply<P, A, E>,
    removal: Removal<Seq<char>>,
    removed: Result<(), StoreError<E>>,
    commit: CommitView,
    sync_reply: SyncReply<O, P, E>,
)
    ensures
        same_setup(operation.step(state, reply).0, state),
        same_setup(removal.step(state, removed).0, state),
        same_setup(commit.step(state, sync_reply).0, state),
{
}

/// After every reply, no location is both written and deleted, no change is later than the last
/// one, and changes of different locations have different generations, as long as the count of
/// changes has not reached its largest value.
pub proof fn law_changes_stay_apart<S, P, A, O, E>(
    state: CacheView<S>,
    operation: Operation<Seq<char>>,
    reply: Reply<P, A, E>,
    removal: Removal<Seq<char>>,
    removed: Result<(), StoreError<E>>,
    commit: CommitView,
    sync_reply: SyncReply<O, P, E>,
)
    requires
        state.wf(),
    ensures
        operation.step(state, reply).0.wf(),
        removal.step(state, removed).0.wf(),
        commit.step(state, sync_reply).0.wf(),
{
}

} // verus!
