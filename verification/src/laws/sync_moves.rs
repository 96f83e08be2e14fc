//! What a pull and a commit ask next, for every reply.

use crate::commit::{commit_begun, CommitProgress, CommitStage, CommitView};
use crate::laws::characters::{comes_before, is_last_segment, law_file_name, lemma_comes_before};
use crate::laws::ranks::{bears_metadata_mark, bears_publication_mark, law_rank};
use crate::local_cache::CacheView;
use crate::location::file_name;
use crate::protocol::{Call, Error, Progress, Side, StoreError, SyncReply};
use crate::pull::{pull_begun, PullProgress, PullStage, PullView};
use vstd::prelude::*;

verus! {

/// The pull goes on at this stage with this call, confined to the same prefix.
pub open spec fn pull_asks<P, E>(
    progress: PullProgress<PullView, Seq<char>, P, E>,
    stage: PullStage,
    prefix: Option<Seq<char>>,
    todo: Seq<Seq<char>>,
    kept: Set<Seq<char>>,
    call: Call<Seq<char>, P>,
) -> bool {
    match progress {
        Progress::Ask(next, asked) => {
            &&& next.stage == stage
            &&& next.prefix == prefix
            &&& next.todo == todo
            &&& next.kept == kept
            &&& asked == call
        },
        Progress::Finish(_) => false,
    }
}

/// The pull reads the next object from the backing store, or lists the cache where none is left.
pub open spec fn refreshes<P, E>(
    progress: PullProgress<PullView, Seq<char>, P, E>,
    prefix: Option<Seq<char>>,
    todo: Seq<Seq<char>>,
    kept: Set<Seq<char>>,
) -> bool {
    if todo.len() > 0 {
        pull_asks(
            progress,
            PullStage::Fetching,
            prefix,
            todo,
            kept,
            Call::Fetch(Side::Remote, todo[0]),
        )
    } else {
        pull_asks(
            progress,
            PullStage::ListingCache,
            prefix,
            todo,
            kept,
            Call::List(Side::Cache, prefix),
        )
    }
}

/// The pull deletes the next object from the cache, or is over where none is left.
pub open spec fn prunes<P, E>(
    progress: PullProgress<PullView, Seq<char>, P, E>,
    prefix: Option<Seq<char>>,
    todo: Seq<Seq<char>>,
    kept: Set<Seq<char>>,
) -> bool {
    if todo.len() > 0 {
        pull_asks(
            progress,
            PullStage::Pruning,
            prefix,
            todo,
            kept,
            Call::Delete(Side::Cache, todo[0]),
        )
    } else {
        progress == PullProgress::<PullView, Seq<char>, P, E>::Finish(Ok(()))
    }
}

/// A pull begins with the listing of the backing store under the prefix of the cache. A closed cache
/// refuses it.
pub proof fn law_pull_opens<S, P, E>(state: CacheView<S>)
    ensures
        state.closed ==> pull_begun::<S, P, E>(state) == PullProgress::<
            PullView,
            Seq<char>,
            P,
            E,
        >::Finish(
            Err(
                Error::Generic {
                    store: "LocalCacheObjectStore",
                    source: "local cache is closed",
                },
            ),
        ),
        !state.closed ==> match pull_begun::<S, P, E>(state) {
            Progress::Ask(pull, call) => {
                &&& pull.stage == PullStage::ListingRemote
                &&& pull.prefix == state.sync_prefix
                &&& call == Call::<Seq<char>, P>::List(Side::Remote, state.sync_prefix)
            },
            Progress::Finish(_) => false,
        },
{
}

/// A pull refreshes every listed object that was neither written nor deleted locally, in the order
/// of the listing, and keeps what was listed, written or deleted. It prunes every cached object that
/// is not to be kept.
pub proof fn law_pull_sets_out<S, P, E>(
    pull: PullView,
    state: CacheView<S>,
    listed: Seq<Seq<char>>,
    kept: Set<Seq<char>>,
)
    requires
        forall|text: Seq<char>| #[trigger]
            kept.contains(text) <==> listed.contains(text) || state.dirty.contains_key(text)
                || state.deleted.contains_key(text),
    ensures
        pull.stage == PullStage::ListingRemote ==> refreshes(
            pull.step(state, SyncReply::<Seq<Seq<char>>, P, E>::Objects(listed)),
            pull.prefix,
            listed.filter(
                |text: Seq<char>|
                    !state.dirty.contains_key(text) && !state.deleted.contains_key(text),
            ),
            kept,
        ),
        pull.stage == PullStage::ListingCache ==> prunes(
            pull.step(state, SyncReply::<Seq<Seq<char>>, P, E>::Objects(listed)),
            pull.prefix,
            listed.filter(|text: Seq<char>| !pull.kept.contains(text)),
            pull.kept,
        ),
{
    let mine = |text: Seq<char>|
        !state.dirty.contains_key(text) && !state.deleted.contains_key(text);
    let theirs = |text: Seq<char>| !state.is_changed(text);
    assert(mine =~= theirs);
    let listing = pull.informed(state, listed);
    assert(listing.kept =~= kept);
}

/// A pull writes into the cache what it read, at the location that it read, and only then turns to
/// the next one; so it does with deletions. That a stale object is gone already is no failure.
pub proof fn law_pull_goes_on<S, P, E>(
    pull: PullView,
    state: CacheView<S>,
    payload: P,
    fault: E,
)
    requires
        pull.todo.len() > 0,
    ensures
        pull.stage == PullStage::Fetching ==> pull_asks(
            pull.step(state, SyncReply::<Seq<Seq<char>>, P, E>::Payload(payload)),
            PullStage::Storing,
            pull.prefix,
            pull.todo,
            pull.kept,
            Call::Store(Side::Cache, pull.todo[0], payload),
        ),
        pull.stage == PullStage::Storing ==> refreshes(
            pull.step(state, SyncReply::<Seq<Seq<char>>, P, E>::Done),
            pull.prefix,
            pull.todo.drop_first(),
            pull.kept,
        ),
        pull.stage == PullStage::Pruning ==> prunes(
            pull.step(state, SyncReply::<Seq<Seq<char>>, P, E>::Done),
            pull.prefix,
            pull.todo.drop_first(),
            pull.kept,
        ),
        pull.stage == PullStage::Pruning ==> prunes(
            pull.step(
                state,
                SyncReply::<Seq<Seq<char>>, P, E>::Fault(StoreError::NotFound(fault)),
            ),
            pull.prefix,
            pull.todo.drop_first(),
            pull.kept,
        ),
{
}

/// Every other failure of a store is the failure of the pull, at once and with that error. So a pull
/// that succeeds has read and written every object that it set out to.
pub proof fn law_pull_failure_is_handed_on<S, P, E>(
    pull: PullView,
    state: CacheView<S>,
    fault: StoreError<E>,
)
    requires
        !(pull.stage == PullStage::Pruning && fault is NotFound),
    ensures
        pull.step(state, SyncReply::<Seq<Seq<char>>, P, E>::Fault(fault)) == PullProgress::<
            PullView,
            Seq<char>,
            P,
            E,
        >::Finish(Err(Error::Store(fault))),
{
}

/// Which replies a pull and a commit can be advanced by: the failure of the call, or else what the
/// call gives.
pub proof fn law_sync_awaits<O, P, E>(
    pull: PullView,
    commit: CommitView,
    reply: SyncReply<O, P, E>,
)
    ensures
        pull.awaits(reply) <==> match reply {
            SyncReply::Fault(_) => true,
            SyncReply::Objects(_) => pull.stage == PullStage::ListingRemote || pull.stage
                == PullStage::ListingCache,
            SyncReply::Payload(_) => pull.stage == PullStage::Fetching,
            SyncReply::Done => pull.stage == PullStage::Storing || pull.stage
                == PullStage::Pruning,
        },
        commit.awaits(reply) <==> match reply {
            SyncReply::Fault(_) => true,
            SyncReply::Objects(_) => false,
            SyncReply::Payload(_) => commit.stage == CommitStage::Fetching,
            SyncReply::Done => commit.stage == CommitStage::Storing || commit.stage
                == CommitStage::Deleting,
        },
{
}

/// The commit goes on with these uploads and deletions left, or is over where none is. It asks for
/// the next object to upload, and for a deletion only where no upload is left.
pub open spec fn commit_goes_on<S, P, E>(
    commit: CommitView,
    state: CacheView<S>,
    uploads: Seq<Seq<char>>,
    deletes: Seq<Seq<char>>,
    after: CacheView<S>,
    progress: CommitProgress<CommitView, Seq<char>, P, E>,
) -> bool {
    match progress {
        Progress::Ask(next, call) => {
            &&& after == state
            &&& next.dirty == commit.dirty
            &&& next.deleted == commit.deleted
            &&& next.uploads == uploads
            &&& next.deletes == deletes
            &&& if uploads.len() > 0 {
                next.stage == CommitStage::Fetching && call == Call::<Seq<char>, P>::Fetch(
                    Side::Cache,
                    uploads[0],
                )
            } else {
                deletes.len() > 0 && next.stage == CommitStage::Deleting && call == Call::<
                    Seq<char>,
                    P,
                >::Delete(Side::Remote, deletes[0])
            }
        },
        Progress::Finish(result) => {
            &&& uploads.len() == 0
            &&& deletes.len() == 0
            &&& result == Ok::<(), Error<Seq<char>, E>>(())
            &&& after == state.committed(commit.dirty, commit.deleted)
        },
    }
}

/// Of two paths, this one is uploaded first: it is payload and the other is not, or the other
/// publishes and it does not; or neither tells them apart, and it comes first in a dictionary.
pub open spec fn goes_first(a: Seq<char>, b: Seq<char>) -> bool {
    exists|first: Seq<char>, second: Seq<char>|
        {
            &&& #[trigger] is_last_segment(a, first)
            &&& #[trigger] is_last_segment(b, second)
            &&& {
                let published = (bears_publication_mark(a, first), bears_publication_mark(
                    b,
                    second,
                ));
                let described = (bears_metadata_mark(a, first), bears_metadata_mark(b, second));
                if published.0 != published.1 {
                    published.1
                } else if !published.0 && described.0 != described.1 {
                    described.1
                } else {
                    comes_before(a, b)
                }
            }
        }
}

/// A commit sets out to upload every location that was written locally and to delete every one that
/// was deleted locally, and no other. The uploads are in the order of payload, metadata and
/// publication, and within each in that of a dictionary; so are the deletions. A closed cache
/// refuses it.
pub proof fn law_commit_sets_out<S, P, E>(
    state: CacheView<S>,
    after: CacheView<S>,
    progress: CommitProgress<CommitView, Seq<char>, P, E>,
) -> (plan: CommitView)
    requires
        commit_begun(state, after, progress),
    ensures
        state.closed ==> after == state && progress == CommitProgress::<
            CommitView,
            Seq<char>,
            P,
            E,
        >::Finish(
            Err(
                Error::Generic {
                    store: "LocalCacheObjectStore",
                    source: "local cache is closed",
                },
            ),
        ),
        !state.closed ==> {
            &&& commit_goes_on(plan, state, plan.uploads, plan.deletes, after, progress)
            &&& plan.dirty == state.dirty
            &&& plan.deleted == state.deleted
            &&& forall|text: Seq<char>| #[trigger]
                plan.uploads.contains(text) <==> state.dirty.contains_key(text)
            &&& forall|text: Seq<char>| #[trigger]
                plan.deletes.contains(text) <==> state.deleted.contains_key(text)
            &&& forall|i: int, j: int|
                0 <= i < j < plan.uploads.len() ==> goes_first(
                    #[trigger] plan.uploads[i],
                    #[trigger] plan.uploads[j],
                )
            &&& forall|i: int, j: int|
                0 <= i < j < plan.deletes.len() ==> comes_before(
                    #[trigger] plan.deletes[i],
                    #[trigger] plan.deletes[j],
                )
        },
{
    let plan = choose|plan: CommitView| #[trigger]
        plan.plans(state) && (after, progress) == plan.go::<S, P, E>(state);
    if !state.closed {
        assert forall|i: int, j: int| 0 <= i < j < plan.uploads.len() implies goes_first(
            #[trigger] plan.uploads[i],
            #[trigger] plan.uploads[j],
        ) by {
            let a = plan.uploads[i];
            let b = plan.uploads[j];
            law_file_name(a, file_name(a));
            law_file_name(b, file_name(b));
            law_rank(a, file_name(a));
            law_rank(b, file_name(b));
            lemma_comes_before(a, b);
            assert(is_last_segment(a, file_name(a)) && is_last_segment(b, file_name(b)));
        }
        assert forall|i: int, j: int| 0 <= i < j < plan.deletes.len() implies comes_before(
            #[trigger] plan.deletes[i],
            #[trigger] plan.deletes[j],
        ) by {
            lemma_comes_before(plan.deletes[i], plan.deletes[j]);
        }
    }
    plan
}

/// A commit uploads to the backing store what it read, at the location that it read, and only then
/// turns to the next one; so it does with deletions. That the backing store lacks an object to be
/// deleted is no failure.
pub proof fn law_commit_goes_on<S, O, P, E>(
    commit: CommitView,
    state: CacheView<S>,
    payload: P,
    fault: E,
)
    ensures
        commit.stage == CommitStage::Fetching ==> {
            let (after, progress) = commit.step(state, SyncReply::<O, P, E>::Payload(payload));
            &&& after == state
            &&& match progress {
                Progress::Finish(_) => false,
                Progress::Ask(next, call) => {
                    &&& next.stage == CommitStage::Storing
                    &&& next.dirty == commit.dirty
                    &&& next.deleted == commit.deleted
                    &&& next.uploads == commit.uploads
                    &&& next.deletes == commit.deletes
                    &&& call == Call::<Seq<char>, P>::Store(
                        Side::Remote,
                        commit.uploads[0],
                        payload,
                    )
                },
            }
        },
        commit.stage == CommitStage::Storing ==> {
            let (after, progress) = commit.step(state, SyncReply::<O, P, E>::Done);
            commit_goes_on(
                commit,
                state,
                commit.uploads.drop_first(),
                commit.deletes,
                after,
                progress,
            )
        },
        commit.stage == CommitStage::Deleting ==> {
            let (after, progress) = commit.step(state, SyncReply::<O, P, E>::Done);
            commit_goes_on(
                commit,
                state,
                commit.uploads,
                commit.deletes.drop_first(),
                after,
                progress,
            )
        },
        commit.stage == CommitStage::Deleting ==> {
            let (after, progress) = commit.step(
                state,
                SyncReply::<O, P, E>::Fault(StoreError::NotFound(fault)),
            );
            commit_goes_on(
                commit,
                state,
                commit.uploads,
                commit.deletes.drop_first(),
                after,
                progress,
            )
        },
{
}

/// Every other failure of a store is the failure of the commit, at once and with that error, and no
/// change is forgotten. So a commit that succeeds has uploaded every object that was written, and
/// deleted every one that was deleted.
pub proof fn law_commit_failure_is_handed_on<S, O, P, E>(
    commit: CommitView,
    state: CacheView<S>,
    fault: StoreError<E>,
)
    requires
        !(commit.stage == CommitStage::Deleting && fault is NotFound),
    ensures
        commit.step(state, SyncReply::<O, P, E>::Fault(fault)) == (
            state,
            CommitProgress::<CommitView, Seq<char>, P, E>::Finish(Err(Error::Store(fault))),
        ),
{
}

} // verus!
