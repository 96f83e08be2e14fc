//! What two operations amount to, one after the other.

use crate::commit::{commit_begun, CommitProgress, CommitView};
use crate::laws::commits::{commit_ends, law_commit, CommitEnded};
use crate::laws::operations::{ends, law_operation_ends_one_way, law_write, Ended};
use crate::laws::world::{agree_at, holds_writes, Lister, World};
use crate::local_cache::CacheView;
use crate::operation::{begun, Request};
use crate::protocol::{Error, StoreError};
use crate::removal::Removal;
use vstd::prelude::*;

verus! {

/// The backing store took over what was written at the location, and holds what it held wherever
/// nothing was changed locally.
pub open spec fn took_over<S, P>(
    state: CacheView<S>,
    before: Map<Seq<char>, P>,
    after: Map<Seq<char>, P>,
    location: Seq<char>,
    content: P,
) -> bool {
    &&& after.contains_key(location)
    &&& after[location] == content
    &&& forall|text: Seq<char>|
        text != location && !state.dirty.contains_key(text) && !state.deleted.contains_key(text)
            ==> #[trigger] agree_at(after, before, text)
}

/// What is written through the cache is in the backing store after the next commit, whatever the
/// location. Nothing that was not changed locally changes there.
pub proof fn law_written_then_committed<S, P, E>(
    state: CacheView<S>,
    world: World<P>,
    location: Seq<char>,
    content: P,
    missing: E,
    lister: Lister<P>,
    written: Ended<S, P, E>,
    after: CacheView<S>,
    progress: CommitProgress<CommitView, Seq<char>, P, E>,
) -> (ended: CommitEnded<S, P, E>)
    requires
        !state.closed,
        state.wf(),
        holds_writes(state, world),
        ends(begun(Request::Put(location), state), state, world, content, missing, written),
        commit_begun(written.state, after, progress),
    ensures
        written.result is Ok,
        commit_ends(progress, after, written.world, lister, missing, ended),
        ended.result == Ok::<(), Error<Seq<char>, E>>(()),
        took_over(state, world.remote, ended.world.remote, location, content),
        !ended.state.dirty.contains_key(location),
{
    let same = law_write(state, world, location, content, missing);
    law_operation_ends_one_way(
        begun(Request::Put(location), state),
        state,
        world,
        content,
        missing,
        written,
        same,
    );
    law_commit(written.state, written.world, lister, missing, after, progress)
}

/// What is deleted through the cache is gone from the backing store after the next commit, whatever
/// the location. Nothing that was not changed locally changes there.
pub proof fn law_deleted_then_committed<S, P, E>(
    state: CacheView<S>,
    world: World<P>,
    location: Seq<char>,
    reply: Result<(), StoreError<E>>,
    missing: E,
    lister: Lister<P>,
    after: CacheView<S>,
    progress: CommitProgress<CommitView, Seq<char>, P, E>,
) -> (ended: CommitEnded<S, P, E>)
    requires
        !state.closed,
        state.wf(),
        holds_writes(state, world),
        !(reply matches Err(StoreError::Other(_))),
        commit_begun((Removal { location }).step(state, reply).0, after, progress),
    ensures
        commit_ends(
            progress,
            after,
            World { cache: world.cache.remove(location), ..world },
            lister,
            missing,
            ended,
        ),
        ended.result == Ok::<(), Error<Seq<char>, E>>(()),
        !ended.world.remote.contains_key(location),
        !ended.state.deleted.contains_key(location),
        forall|text: Seq<char>|
            text != location && !state.dirty.contains_key(text) && !state.deleted.contains_key(text)
                ==> #[trigger] agree_at(ended.world.remote, world.remote, text),
{
    let (marked, _) = (Removal { location }).step(state, reply);
    let left = World { cache: world.cache.remove(location), ..world };
    law_commit(marked, left, lister, missing, after, progress)
}

} // verus!
