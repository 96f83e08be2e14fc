//! Bringing the cache in line with the backing store.

use crate::local_cache::{closed, CacheView, LocalCacheObjectStore};
use crate::location::Location;
use crate::location_map::{texts, LocationMap};
use crate::protocol::{
    copy_optional, optional_text, result_view, Call, Error, Progress, Side, StoreError, SyncReply,
};
use vstd::prelude::*;

verus! {

/// Which call a pull waits for.
#[derive(Debug, Clone, Copy, PartialEq, Eq, Structural)]
pub enum PullStage {
    /// The listing of the backing store.
    ListingRemote,
    /// Reading an object from the backing store.
    Fetching,
    /// Writing that object into the cache.
    Storing,
    /// The listing of the cache.
    ListingCache,
    /// Deleting a stale object from the cache.
    Pruning,
}

/// A pull that waits for a reply.
#[derive(Debug)]
pub struct Pull {
    prefix: Option<Location>,
    stage: PullStage,
    todo: Vec<Location>,
    position: usize,
    kept: LocationMap<()>,
}

/// What a [`Pull`] holds.
#[verifier::ext_equal]
pub struct PullView {
    /// What the pull is confined to.
    pub prefix: Option<Seq<char>>,
    /// Which call it waits for.
    pub stage: PullStage,
    /// The locations still to be refreshed, or still to be pruned.
    pub todo: Seq<Seq<char>>,
    /// The locations that are not pruned: those in the backing store, and those changed locally.
    pub kept: Set<Seq<char>>,
}

/// The next move of a [`Pull`].
pub type PullProgress<O, L, P, E> = Progress<O, Call<L, P>, Result<(), Error<L, E>>>;

impl View for Pull {
    type V = PullView;

    closed spec fn view(&self) -> PullView {
        PullView {
            prefix: optional_text(self.prefix),
            stage: self.stage,
            todo: texts(self.todo@).skip(self.position as int),
            kept: self.kept@.dom(),
        }
    }
}

impl<P, E> View for PullProgress<Pull, Location, P, E> {
    type V = PullProgress<PullView, Seq<char>, P, E>;

    open spec fn view(&self) -> PullProgress<PullView, Seq<char>, P, E> {
        match *self {
            Progress::Ask(pull, call) => Progress::Ask(pull@, call@),
            Progress::Finish(result) => Progress::Finish(result_view(result)),
        }
    }
}

impl PullView {
    /// The reply is one that the call the pull waits for can have.
    pub open spec fn awaits<O, P, E>(self, reply: SyncReply<O, P, E>) -> bool {
        reply is Fault || match self.stage {
            PullStage::ListingRemote | PullStage::ListingCache => reply is Objects,
            PullStage::Fetching => reply is Payload,
            PullStage::Storing | PullStage::Pruning => reply is Done,
        }
    }

    /// Refreshes the next object; lists the cache when none is left.
    pub open spec fn refresh<P, E>(self) -> PullProgress<PullView, Seq<char>, P, E> {
        if self.todo.len() > 0 {
            Progress::Ask(
                PullView { stage: PullStage::Fetching, ..self },
                Call::Fetch(Side::Remote, self.todo[0]),
            )
        } else {
            Progress::Ask(
                PullView { stage: PullStage::ListingCache, ..self },
                Call::List(Side::Cache, self.prefix),
            )
        }
    }

    /// Prunes the next object; ends when none is left.
    pub open spec fn prune<P, E>(self) -> PullProgress<PullView, Seq<char>, P, E> {
        if self.todo.len() > 0 {
            Progress::Ask(
                PullView { stage: PullStage::Pruning, ..self },
                Call::Delete(Side::Cache, self.todo[0]),
            )
        } else {
            Progress::Finish(Ok(()))
        }
    }

    /// The pull without the object it has dealt with.
    pub open spec fn rest(self) -> Self {
        PullView { todo: self.todo.drop_first(), ..self }
    }

    /// The pull that knows what the backing store holds: objects that were changed locally are
    /// neither refreshed nor pruned.
    pub open spec fn informed<S>(self, state: CacheView<S>, listed: Seq<Seq<char>>) -> Self {
        PullView {
            todo: listed.filter(|text: Seq<char>| !state.is_changed(text)),
            kept: Set::new(|text: Seq<char>| listed.contains(text) || state.is_changed(text)),
            ..self
        }
    }

    /// The pull that knows what the cache holds.
    pub open spec fn confronted(self, listed: Seq<Seq<char>>) -> Self {
        PullView { todo: listed.filter(|text: Seq<char>| !self.kept.contains(text)), ..self }
    }

    /// The next move after a reply.
    pub open spec fn step<S, P, E>(
        self,
        state: CacheView<S>,
        reply: SyncReply<Seq<Seq<char>>, P, E>,
    ) -> PullProgress<PullView, Seq<char>, P, E> {
        match reply {
            SyncReply::Objects(listed) => if self.stage == PullStage::ListingRemote {
                self.informed(state, listed).refresh()
            } else {
                self.confronted(listed).prune()
            },
            SyncReply::Payload(payload) => Progress::Ask(
                PullView { stage: PullStage::Storing, ..self },
                Call::Store(Side::Cache, self.todo[0], payload),
            ),
            SyncReply::Done => if self.stage == PullStage::Storing {
                self.rest().refresh()
            } else {
                self.rest().prune()
            },
            SyncReply::Fault(fault) => if self.stage == PullStage::Pruning && fault is NotFound {
                self.rest().prune()
            } else {
                Progress::Finish(Err(Error::Store(fault)))
            },
        }
    }
}

/// How a pull begins: it is refused where the cache was closed.
pub open spec fn pull_begun<S, P, E>(state: CacheView<S>) -> PullProgress<
    PullView,
    Seq<char>,
    P,
    E,
> {
    if state.closed {
        Progress::Finish(Err(closed()))
    } else {
        Progress::Ask(
            PullView {
                prefix: state.sync_prefix,
                stage: PullStage::ListingRemote,
                todo: Seq::empty(),
                kept: Set::empty(),
            },
            Call::List(Side::Remote, state.sync_prefix),
        )
    }
}

/// The locations that are not in the set, in their order.
fn outside(locations: &Vec<Location>, set: &LocationMap<()>) -> (kept: Vec<Location>)
    ensures
        texts(kept@) == texts(locations@).filter(|text: Seq<char>| !set@.contains_key(text)),
{
    let ghost pred = |text: Seq<char>| !set@.contains_key(text);
    let ghost all = texts(locations@);
    let mut kept: Vec<Location> = Vec::new();
    proof {
        assert(all.take(0).filter(pred) =~= Seq::empty()) by {
            reveal(Seq::filter);
        }
        assert(texts(kept@) =~= Seq::empty());
    }
    for i in 0..locations.len()
        invariant
            all == texts(locations@),
            pred == (|text: Seq<char>| !set@.contains_key(text)),
            texts(kept@) == all.take(i as int).filter(pred),
    {
        let ghost before = kept@;
        proof {
            assert(all.take(i + 1) =~= all.take(i as int).push(all[i as int]));
            all.take(i as int).lemma_filter_push(all[i as int], pred);
        }
        if !set.contains_key(&locations[i]) {
            let location = locations[i].clone();
            kept.push(location);
            proof {
                assert(texts(kept@) =~= texts(before).push(location@));
            }
        }
    }
    proof {
        assert(all.take(all.len() as int) =~= all);
    }
    kept
}

/// Adds the locations to the set.
fn add_all(set: &mut LocationMap<()>, locations: &Vec<Location>)
    ensures
        forall|text: Seq<char>| #[trigger]
            final(set)@.contains_key(text) <==> old(set)@.contains_key(text) || texts(
                locations@,
            ).contains(text),
{
    let ghost all = texts(locations@);
    let ghost before = set@;
    for i in 0..locations.len()
        invariant
            all == texts(locations@),
            forall|text: Seq<char>| #[trigger]
                set@.contains_key(text) <==> before.contains_key(text) || all.take(
                    i as int,
                ).contains(text),
    {
        let ghost earlier = set@;
        set.insert(locations[i].clone(), ());
        proof {
            let next = all.take(i + 1);
            assert(next =~= all.take(i as int).push(all[i as int]));
            assert forall|text: Seq<char>| #[trigger]
                set@.contains_key(text) <==> before.contains_key(text) || next.contains(text) by {
                assert(next[i as int] == all[i as int]);
                if all.take(i as int).contains(text) {
                    let j = choose|j: int| 0 <= j < i && all.take(i as int)[j] == text;
                    assert(next[j] == text);
                }
                if next.contains(text) && text != all[i as int] {
                    let j = choose|j: int| 0 <= j < next.len() && next[j] == text;
                    assert(all.take(i as int)[j] == text);
                }
                assert(earlier.contains_key(text) <==> before.contains_key(text) || all.take(
                    i as int,
                ).contains(text));
            }
        }
    }
    proof {
        assert(all.take(all.len() as int) =~= all);
    }
}

impl Pull {
    #[verifier::type_invariant]
    spec fn has_work(self) -> bool {
        &&& self.position <= self.todo@.len()
        &&& self.stage is Fetching || self.stage is Storing || self.stage is Pruning
            ==> self.position < self.todo@.len()
    }

    fn refresh<P, E>(
        prefix: Option<Location>,
        todo: Vec<Location>,
        position: usize,
        kept: LocationMap<()>,
    ) -> (progress: PullProgress<Pull, Location, P, E>)
        requires
            position <= todo@.len(),
        ensures
            progress@ == (PullView {
                prefix: optional_text(prefix),
                stage: PullStage::Fetching,
                todo: texts(todo@).skip(position as int),
                kept: kept@.dom(),
            }).refresh::<P, E>(),
    {
        if position < todo.len() {
            let call = Call::Fetch(Side::Remote, todo[position].clone());
            Progress::Ask(
                Pull { prefix, stage: PullStage::Fetching, todo, position, kept },
                call,
            )
        } else {
            let call = Call::List(Side::Cache, copy_optional(&prefix));
            Progress::Ask(
                Pull { prefix, stage: PullStage::ListingCache, todo, position, kept },
                call,
            )
        }
    }

    fn prune<P, E>(
        prefix: Option<Location>,
        todo: Vec<Location>,
        position: usize,
        kept: LocationMap<()>,
    ) -> (progress: PullProgress<Pull, Location, P, E>)
        requires
            position <= todo@.len(),
        ensures
            progress@ == (PullView {
                prefix: optional_text(prefix),
                stage: PullStage::Pruning,
                todo: texts(todo@).skip(position as int),
                kept: kept@.dom(),
            }).prune::<P, E>(),
    {
        if position < todo.len() {
            let call = Call::Delete(Side::Cache, todo[position].clone());
            Progress::Ask(
                Pull { prefix, stage: PullStage::Pruning, todo, position, kept },
                call,
            )
        } else {
            Progress::Finish(Ok(()))
        }
    }

    /// Advances the pull by the reply to its call.
    pub fn advance<S, P, E>(
        self,
        store: &LocalCacheObjectStore<S>,
        reply: SyncReply<Vec<Location>, P, E>,
    ) -> (progress: PullProgress<Pull, Location, P, E>)
        requires
            self@.awaits(reply),
        ensures
            progress@ == self@.step(store@, reply@),
    {
        proof {
            use_type_invariant(&self);
        }
        let ghost view = self@;
        let Pull { prefix, stage, todo, position, kept } = self;
        match reply {
            SyncReply::Objects(listed) => {
                if stage == PullStage::ListingRemote {
                    let mut kept: LocationMap<()> = LocationMap::new();
                    add_all(&mut kept, &store.dirty_snapshot().keys());
                    add_all(&mut kept, &store.deleted_snapshot().keys());
                    let todo = outside(&listed, &kept);
                    proof {
                        let changed = |text: Seq<char>| !store@.is_changed(text);
                        let absent = |text: Seq<char>| !kept@.contains_key(text);
                        assert(changed =~= absent);
                        assert(texts(todo@).skip(0) =~= texts(todo@));
                    }
                    add_all(&mut kept, &listed);
                    proof {
                        assert(kept@.dom() =~= view.informed(store@, texts(listed@)).kept);
                    }
                    Self::refresh(prefix, todo, 0, kept)
                } else {
                    let todo = outside(&listed, &kept);
                    proof {
                        let pruned = |text: Seq<char>| !view.kept.contains(text);
                        let absent = |text: Seq<char>| !kept@.contains_key(text);
                        assert(pruned =~= absent);
                        assert(texts(todo@).skip(0) =~= texts(todo@));
                    }
                    Self::prune(prefix, todo, 0, kept)
                }
            },
            SyncReply::Payload(payload) => {
                let call = Call::Store(Side::Cache, todo[position].clone(), payload);
                Progress::Ask(
                    Pull { prefix, stage: PullStage::Storing, todo, position, kept },
                    call,
                )
            },
            SyncReply::Done => {
                proof {
                    assert(position < todo.len() <= usize::MAX);
                    assert(texts(todo@).skip(position as int).drop_first() =~= texts(todo@).skip(
                        position + 1,
                    ));
                }
                if stage == PullStage::Storing {
                    Self::refresh(prefix, todo, position + 1, kept)
                } else {
                    Self::prune(prefix, todo, position + 1, kept)
                }
            },
            SyncReply::Fault(fault) => {
                proof {
                    if stage == PullStage::Pruning {
                        assert(position < todo.len() <= usize::MAX);
                        assert(texts(todo@).skip(position as int).drop_first() =~= texts(
                            todo@,
                        ).skip(position + 1));
                    }
                }
                match fault {
                    StoreError::NotFound(fault) => {
                        if stage == PullStage::Pruning {
                            Self::prune(prefix, todo, position + 1, kept)
                        } else {
                            Progress::Finish(Err(Error::Store(StoreError::NotFound(fault))))
                        }
                    },
                    StoreError::Other(fault) => Progress::Finish(
                        Err(Error::Store(StoreError::Other(fault))),
                    ),
                }
            },
        }
    }
}

impl<S> LocalCacheObjectStore<S> {
    /// Brings the cache in line with the backing store, under the synchronised prefix.
    ///
    /// Objects of the backing store are copied into the cache, and cached objects that it lacks
    /// are dropped. Objects that were written or deleted locally are left alone until they are
    /// committed.
    pub fn pull<P, E>(&self) -> (progress: PullProgress<Pull, Location, P, E>)
        ensures
            progress@ == pull_begun::<S, P, E>(self@),
    {
        match self.check_open::<E>() {
            Err(error) => Progress::Finish(Err(error)),
            Ok(_) => {
                let prefix = self.sync_prefix();
                let call = Call::List(Side::Remote, copy_optional(&prefix));
                let pull = Pull {
                    prefix,
                    stage: PullStage::ListingRemote,
                    todo: Vec::new(),
                    position: 0,
                    kept: LocationMap::new(),
                };
                proof {
                    assert(pull@.todo =~= Seq::<Seq<char>>::empty());
                    assert(pull@.kept =~= Set::<Seq<char>>::empty());
                }
                Progress::Ask(pull, call)
            },
        }
    }
}

} // verus!
