//! Bringing local changes to the backing store.

use crate::local_cache::{closed, commit_rank, CacheView, LocalCacheObjectStore};
use crate::location::Location;
use crate::location_map::{ascending, texts, LocationMap};
use crate::protocol::{result_view, Call, Error, Progress, Side, StoreError, SyncReply};
use crate::text::precedes;
use vstd::prelude::*;

verus! {

/// Which call a commit waits for.
#[derive(Debug, Clone, Copy, PartialEq, Eq, Structural)]
pub enum CommitStage {
    /// Reading a written object from the cache.
    Fetching,
    /// Uploading that object.
    Storing,
    /// Deleting an object from the backing store.
    Deleting,
}

/// A commit that waits for a reply.
#[derive(Debug)]
pub struct Commit {
    stage: CommitStage,
    dirty: LocationMap<u64>,
    deleted: LocationMap<u64>,
    uploads: Vec<Location>,
    uploaded: usize,
    deletes: Vec<Location>,
    removed: usize,
}

/// What a [`Commit`] holds.
#[verifier::ext_equal]
pub struct CommitView {
    /// Which call it waits for.
    pub stage: CommitStage,
    /// The writes that it commits, with their generations.
    pub dirty: Map<Seq<char>, u64>,
    /// The deletions that it commits, with their generations.
    pub deleted: Map<Seq<char>, u64>,
    /// The locations still to be uploaded.
    pub uploads: Seq<Seq<char>>,
    /// The locations still to be deleted.
    pub deletes: Seq<Seq<char>>,
}

/// The next move of a [`Commit`].
pub type CommitProgress<O, L, P, E> = Progress<O, Call<L, P>, Result<(), Error<L, E>>>;

impl View for Commit {
    type V = CommitView;

    closed spec fn view(&self) -> CommitView {
        CommitView {
            stage: self.stage,
            dirty: self.dirty@,
            deleted: self.deleted@,
            uploads: texts(self.uploads@).skip(self.uploaded as int),
            deletes: texts(self.deletes@).skip(self.removed as int),
        }
    }
}

impl<P, E> View for CommitProgress<Commit, Location, P, E> {
    type V = CommitProgress<CommitView, Seq<char>, P, E>;

    open spec fn view(&self) -> CommitProgress<CommitView, Seq<char>, P, E> {
        match *self {
            Progress::Ask(commit, call) => Progress::Ask(commit@, call@),
            Progress::Finish(result) => Progress::Finish(result_view(result)),
        }
    }
}

/// `a` is uploaded before `b`: in an earlier turn, or in the same turn by the order of the text.
pub open spec fn uploads_before(a: Seq<char>, b: Seq<char>) -> bool {
    commit_rank(a) < commit_rank(b) || commit_rank(a) == commit_rank(b) && precedes(a, b)
}

/// The texts stand in the order in which they are uploaded.
pub open spec fn in_upload_order(uploads: Seq<Seq<char>>) -> bool {
    forall|i: int, j: int|
        0 <= i < j < uploads.len() ==> uploads_before(#[trigger] uploads[i], #[trigger] uploads[j])
}

/// The sequence holds exactly the keys of the map.
pub open spec fn lists_keys(sequence: Seq<Seq<char>>, map: Map<Seq<char>, u64>) -> bool {
    forall|text: Seq<char>| #[trigger] sequence.contains(text) <==> map.contains_key(text)
}

impl CommitView {
    /// The commit sets out to bring every local change of the state to the backing store.
    pub open spec fn plans<S>(self, state: CacheView<S>) -> bool {
        &&& self.stage == CommitStage::Fetching
        &&& self.dirty == state.dirty
        &&& self.deleted == state.deleted
        &&& in_upload_order(self.uploads)
        &&& lists_keys(self.uploads, state.dirty)
        &&& ascending(self.deletes)
        &&& lists_keys(self.deletes, state.deleted)
    }

    /// The reply is one that the call the commit waits for can have.
    pub open spec fn awaits<O, P, E>(self, reply: SyncReply<O, P, E>) -> bool {
        reply is Fault || match self.stage {
            CommitStage::Fetching => reply is Payload,
            CommitStage::Storing | CommitStage::Deleting => reply is Done,
        }
    }

    /// Uploads the next object, then deletes the next one; when none is left, the changes that
    /// were committed are forgotten.
    pub open spec fn go<S, P, E>(self, state: CacheView<S>) -> (
        CacheView<S>,
        CommitProgress<CommitView, Seq<char>, P, E>,
    ) {
        if self.uploads.len() > 0 {
            (
                state,
                Progress::Ask(
                    CommitView { stage: CommitStage::Fetching, ..self },
                    Call::Fetch(Side::Cache, self.uploads[0]),
                ),
            )
        } else if self.deletes.len() > 0 {
            (
                state,
                Progress::Ask(
                    CommitView { stage: CommitStage::Deleting, ..self },
                    Call::Delete(Side::Remote, self.deletes[0]),
                ),
            )
        } else {
            (state.committed(self.dirty, self.deleted), Progress::Finish(Ok(())))
        }
    }

    /// The commit after an upload.
    pub open spec fn without_upload(self) -> Self {
        CommitView { uploads: self.uploads.drop_first(), ..self }
    }

    /// The commit after a deletion.
    pub open spec fn without_delete(self) -> Self {
        CommitView { deletes: self.deletes.drop_first(), ..self }
    }

    /// The state and the next move after a reply. A failure leaves every change uncommitted; an
    /// object that the backing store lacks counts as deleted.
    pub open spec fn step<S, O, P, E>(self, state: CacheView<S>, reply: SyncReply<O, P, E>) -> (
        CacheView<S>,
        CommitProgress<CommitView, Seq<char>, P, E>,
    ) {
        match reply {
            SyncReply::Payload(payload) => (
                state,
                Progress::Ask(
                    CommitView { stage: CommitStage::Storing, ..self },
                    Call::Store(Side::Remote, self.uploads[0], payload),
                ),
            ),
            SyncReply::Fault(fault) => if self.stage == CommitStage::Deleting
                && fault is NotFound {
                self.without_delete().go(state)
            } else {
                (state, Progress::Finish(Err(Error::Store(fault))))
            },
            SyncReply::Done | SyncReply::Objects(_) => if self.stage == CommitStage::Storing {
                self.without_upload().go(state)
            } else {
                self.without_delete().go(state)
            },
        }
    }
}

/// How a commit begins: it is refused where the cache was closed, and else sets out to bring
/// every local change to the backing store.
pub open spec fn commit_begun<S, P, E>(
    before: CacheView<S>,
    after: CacheView<S>,
    progress: CommitProgress<CommitView, Seq<char>, P, E>,
) -> bool {
    if before.closed {
        after == before && progress == CommitProgress::<CommitView, Seq<char>, P, E>::Finish(
            Err(closed()),
        )
    } else {
        exists|plan: CommitView| #[trigger]
            plan.plans(before) && (after, progress) == plan.go::<S, P, E>(before)
    }
}

/// The locations in the order in which they are uploaded.
fn upload_order(locations: &Vec<Location>) -> (uploads: Vec<Location>)
    requires
        ascending(texts(locations@)),
    ensures
        in_upload_order(texts(uploads@)),
        forall|text: Seq<char>| #[trigger]
            texts(uploads@).contains(text) <==> texts(locations@).contains(text),
{
    let ghost all = texts(locations@);
    let mut uploads: Vec<Location> = Vec::new();
    let mut turn: u8 = 0;
    while turn < 3
        invariant
            turn <= 3,
            all == texts(locations@),
            ascending(all),
            in_upload_order(texts(uploads@)),
            forall|i: int|
                0 <= i < uploads@.len() ==> commit_rank(#[trigger] texts(uploads@)[i]) < turn,
            forall|text: Seq<char>| #[trigger]
                texts(uploads@).contains(text) <==> all.contains(text) && commit_rank(text) < turn,
        decreases 3 - turn,
    {
        let mut position: usize = 0;
        while position < locations.len()
            invariant
                turn < 3,
                position <= locations@.len(),
                all == texts(locations@),
                ascending(all),
                in_upload_order(texts(uploads@)),
                forall|i: int|
                    0 <= i < uploads@.len() ==> commit_rank(#[trigger] texts(uploads@)[i]) <= turn,
                forall|i: int, j: int|
                    0 <= i < uploads@.len() && position <= j < all.len() && commit_rank(
                        #[trigger] texts(uploads@)[i],
                    ) == turn ==> precedes(texts(uploads@)[i], #[trigger] all[j]),
                forall|text: Seq<char>| #[trigger]
                    texts(uploads@).contains(text) <==> (all.contains(text) && commit_rank(text)
                        < turn) || (all.take(position as int).contains(text) && commit_rank(text)
                        == turn),
            decreases locations.len() - position,
        {
            let ghost before = texts(uploads@);
            let ghost text = all[position as int];
            if LocalCacheObjectStore::commit_order(&locations[position]) == turn {
                let location = locations[position].clone();
                uploads.push(location);
                proof {
                    assert(texts(uploads@) =~= before.push(text));
                }
            }
            proof {
                let after = texts(uploads@);
                let seen = all.take(position as int);
                let next = all.take(position + 1);
                assert(next =~= seen.push(text));
                assert forall|t: Seq<char>| #[trigger]
                    after.contains(t) <==> (all.contains(t) && commit_rank(t) < turn) || (
                    next.contains(t) && commit_rank(t) == turn) by {
                    lemma_push_contains(seen, text, t);
                    lemma_push_contains(before, text, t);
                }
                assert forall|i: int, j: int|
                    0 <= i < after.len() && position + 1 <= j < all.len() && commit_rank(
                        #[trigger] after[i],
                    ) == turn implies precedes(after[i], #[trigger] all[j]) by {
                    if i < before.len() {
                        assert(after[i] == before[i]);
                    } else {
                        assert(precedes(all[position as int], all[j]));
                    }
                }
                assert forall|i: int, j: int| 0 <= i < j < after.len() implies uploads_before(
                    #[trigger] after[i],
                    #[trigger] after[j],
                ) by {
                    assert(after[i] == before[i]);
                    if j < before.len() {
                        assert(after[j] == before[j]);
                    } else {
                        assert(commit_rank(before[i]) <= turn);
                        if commit_rank(before[i]) == turn {
                            assert(precedes(before[i], all[position as int]));
                        }
                    }
                }
            }
            position = position + 1;
        }
        proof {
            assert(all.take(all.len() as int) =~= all);
        }
        turn = turn + 1;
    }
    uploads
}

proof fn lemma_push_contains<T>(s: Seq<T>, last: T, x: T)
    ensures
        s.push(last).contains(x) <==> s.contains(x) || x == last,
{
    assert(s.push(last)[s.len() as int] == last);
    if s.contains(x) {
        let i = choose|i: int| 0 <= i < s.len() && s[i] == x;
        assert(s.push(last)[i] == x);
    }
}

impl Commit {
    #[verifier::type_invariant]
    spec fn has_work(self) -> bool {
        &&& self.uploaded <= self.uploads@.len()
        &&& self.removed <= self.deletes@.len()
        &&& self.stage is Fetching || self.stage is Storing ==> self.uploaded
            < self.uploads@.len()
        &&& self.stage is Deleting ==> self.removed < self.deletes@.len()
    }

    fn go<S, P, E>(
        dirty: LocationMap<u64>,
        deleted: LocationMap<u64>,
        uploads: Vec<Location>,
        uploaded: usize,
        deletes: Vec<Location>,
        removed: usize,
        store: &mut LocalCacheObjectStore<S>,
    ) -> (progress: CommitProgress<Commit, Location, P, E>)
        requires
            uploaded <= uploads@.len(),
            removed <= deletes@.len(),
        ensures
            (final(store)@, progress@) == (CommitView {
                stage: CommitStage::Fetching,
                dirty: dirty@,
                deleted: deleted@,
                uploads: texts(uploads@).skip(uploaded as int),
                deletes: texts(deletes@).skip(removed as int),
            }).go::<S, P, E>(old(store)@),
            old(store)@.wf() ==> final(store)@.wf(),
    {
        if uploaded < uploads.len() {
            let call = Call::Fetch(Side::Cache, uploads[uploaded].clone());
            let stage = CommitStage::Fetching;
            Progress::Ask(
                Commit { stage, dirty, deleted, uploads, uploaded, deletes, removed },
                call,
            )
        } else if removed < deletes.len() {
            let call = Call::Delete(Side::Remote, deletes[removed].clone());
            let stage = CommitStage::Deleting;
            Progress::Ask(
                Commit { stage, dirty, deleted, uploads, uploaded, deletes, removed },
                call,
            )
        } else {
            store.forget_committed(&dirty, &deleted);
            Progress::Finish(Ok(()))
        }
    }

    /// Advances the commit by the reply to its call.
    pub fn advance<S, P, E>(
        self,
        store: &mut LocalCacheObjectStore<S>,
        reply: SyncReply<Vec<Location>, P, E>,
    ) -> (progress: CommitProgress<Commit, Location, P, E>)
        requires
            self@.awaits(reply),
        ensures
            (final(store)@, progress@) == self@.step(old(store)@, reply),
            old(store)@.wf() ==> final(store)@.wf(),
    {
        proof {
            use_type_invariant(&self);
        }
        let Commit { stage, dirty, deleted, uploads, uploaded, deletes, removed } = self;
        proof {
            if uploaded < uploads@.len() {
                assert(uploaded < uploads.len() <= usize::MAX);
                assert(texts(uploads@).skip(uploaded as int).drop_first() =~= texts(uploads@).skip(
                    uploaded + 1,
                ));
            }
            if removed < deletes@.len() {
                assert(removed < deletes.len() <= usize::MAX);
                assert(texts(deletes@).skip(removed as int).drop_first() =~= texts(deletes@).skip(
                    removed + 1,
                ));
            }
        }
        match reply {
            SyncReply::Payload(payload) => {
                let call = Call::Store(Side::Remote, uploads[uploaded].clone(), payload);
                let stage = CommitStage::Storing;
                Progress::Ask(
                    Commit { stage, dirty, deleted, uploads, uploaded, deletes, removed },
                    call,
                )
            },
            SyncReply::Fault(StoreError::NotFound(fault)) => {
                if stage == CommitStage::Deleting {
                    Self::go(dirty, deleted, uploads, uploaded, deletes, removed + 1, store)
                } else {
                    Progress::Finish(Err(Error::Store(StoreError::NotFound(fault))))
                }
            },
            SyncReply::Fault(fault) => Progress::Finish(Err(Error::Store(fault))),
            SyncReply::Done | SyncReply::Objects(_) => {
                if stage == CommitStage::Storing {
                    Self::go(dirty, deleted, uploads, uploaded + 1, deletes, removed, store)
                } else {
                    Self::go(dirty, deleted, uploads, uploaded, deletes, removed + 1, store)
                }
            },
        }
    }
}

impl<S> LocalCacheObjectStore<S> {
    /// Uploads the objects that were written locally and deletes those that were deleted
    /// locally.
    ///
    /// Payload is uploaded before the metadata that describes it, and both before the files that
    /// publish them. A change made while the commit runs stays uncommitted.
    pub fn commit<P, E>(&mut self) -> (progress: CommitProgress<Commit, Location, P, E>)
        ensures
            commit_begun(old(self)@, final(self)@, progress@),
            old(self)@.wf() ==> final(self)@.wf(),
    {
        match self.check_open::<E>() {
            Err(error) => Progress::Finish(Err(error)),
            Ok(_) => {
                let dirty = self.dirty_snapshot();
                let deleted = self.deleted_snapshot();
                let uploads = upload_order(&dirty.keys());
                let deletes = deleted.keys();
                let ghost plan = CommitView {
                    stage: CommitStage::Fetching,
                    dirty: dirty@,
                    deleted: deleted@,
                    uploads: texts(uploads@),
                    deletes: texts(deletes@),
                };
                proof {
                    assert(texts(uploads@).skip(0) =~= texts(uploads@));
                    assert(texts(deletes@).skip(0) =~= texts(deletes@));
                    assert(plan.plans(old(self)@));
                }
                Commit::go(dirty, deleted, uploads, 0, deletes, 0, self)
            },
        }
    }
}

} // verus!
