//! Listings through the local cache: what the backing store holds, with the local changes.

use crate::local_cache::{closed, CacheView, LocalCacheObjectStore};
use crate::location::Location;
use crate::location_map::{in_order, map_of, texts, Entry, LocationMap};
use crate::protocol::{copy_optional, optional_text, Call, Error, Progress, Side, StoreError};
use crate::text::{
    lemma_precedes_asymmetric, lemma_precedes_transitive, precedes, text_precedes,
};
use vstd::multiset::Multiset;
use vstd::prelude::*;

verus! {

/// Listed objects: the text of each location, and the details of the object.
pub open spec fn pairs<D>(entries: Seq<Entry<D>>) -> Seq<(Seq<char>, D)> {
    entries.map_values(|entry: Entry<D>| (entry.location@, entry.value))
}

/// The objects, joined by those listed that were not deleted locally. What is listed later
/// stands in place of what was there.
pub open spec fn merged<D>(
    objects: Map<Seq<char>, D>,
    listed: Seq<(Seq<char>, D)>,
    deleted: Map<Seq<char>, u64>,
) -> Map<Seq<char>, D>
    decreases listed.len(),
{
    if listed.len() == 0 {
        objects
    } else {
        let before = merged(objects, listed.drop_last(), deleted);
        if deleted.contains_key(listed.last().0) {
            before
        } else {
            before.insert(listed.last().0, listed.last().1)
        }
    }
}

/// Adds the listed objects that were not deleted locally.
fn merge<D>(objects: &mut LocationMap<D>, listed: Vec<Entry<D>>, deleted: &LocationMap<u64>)
    ensures
        final(objects)@ == merged(old(objects)@, pairs(listed@), deleted@),
{
    let ghost all = pairs(listed@);
    let ghost before = objects@;
    let ghost entries = listed@;
    proof {
        assert(all.take(0) =~= Seq::empty());
    }
    for entry in iter: listed
        invariant
            iter.seq() == entries,
            all == pairs(entries),
            objects@ == merged(before, all.take(iter.index() as int), deleted@),
    {
        proof {
            let next = all.take(iter.index() + 1);
            assert(next.drop_last() =~= all.take(iter.index() as int));
            assert(next.last() == (entry.location@, entry.value));
        }
        if !deleted.contains_key(&entry.location) {
            objects.insert(entry.location, entry.value);
        }
    }
    proof {
        assert(all.take(all.len() as int) =~= all);
    }
}

/// Which call a listing waits for.
#[derive(Debug, Clone, Copy, PartialEq, Eq, Structural)]
pub enum ListStage {
    /// The listing of the backing store.
    Remote,
    /// The listing of the cache.
    Cache,
}

/// A listing that waits for a reply.
#[derive(Debug)]
pub struct Listing<D> {
    prefix: Option<Location>,
    stage: ListStage,
    deleted: LocationMap<u64>,
    objects: LocationMap<D>,
}

/// What a [`Listing`] holds.
#[verifier::ext_equal]
pub struct ListingView<D> {
    /// What is listed.
    pub prefix: Option<Seq<char>>,
    /// Which call it waits for.
    pub stage: ListStage,
    /// The local deletions as they stood when the listing began.
    pub deleted: Map<Seq<char>, u64>,
    /// The objects found so far.
    pub objects: Map<Seq<char>, D>,
}

/// The next move of a [`Listing`]. `T` is the type of the result.
pub type ListingProgress<O, L, T, E> = Progress<O, Call<L, ()>, Result<T, Error<L, E>>>;

impl<D> View for Listing<D> {
    type V = ListingView<D>;

    closed spec fn view(&self) -> ListingView<D> {
        ListingView {
            prefix: optional_text(self.prefix),
            stage: self.stage,
            deleted: self.deleted@,
            objects: self.objects@,
        }
    }
}

impl<D, E> View for ListingProgress<Listing<D>, Location, Vec<Entry<D>>, E> {
    type V = ListingProgress<ListingView<D>, Seq<char>, Map<Seq<char>, D>, E>;

    open spec fn view(&self) -> ListingProgress<
        ListingView<D>,
        Seq<char>,
        Map<Seq<char>, D>,
        E,
    > {
        match *self {
            Progress::Ask(listing, call) => Progress::Ask(listing@, call@),
            Progress::Finish(Ok(entries)) => Progress::Finish(Ok(map_of(entries@))),
            Progress::Finish(Err(error)) => Progress::Finish(Err(error@)),
        }
    }
}

impl<D> ListingView<D> {
    /// The next move after a reply.
    pub open spec fn step<E>(
        self,
        reply: Result<Seq<(Seq<char>, D)>, StoreError<E>>,
    ) -> ListingProgress<ListingView<D>, Seq<char>, Map<Seq<char>, D>, E> {
        match reply {
            Err(fault) => Progress::Finish(Err(Error::Store(fault))),
            Ok(listed) => {
                let objects = merged(self.objects, listed, self.deleted);
                if self.stage == ListStage::Remote {
                    Progress::Ask(
                        ListingView { stage: ListStage::Cache, objects, ..self },
                        Call::List(Side::Cache, self.prefix),
                    )
                } else {
                    Progress::Finish(Ok(objects))
                }
            },
        }
    }
}

/// A listing as a store replies it, with the locations in it as text.
pub open spec fn reply_pairs<D, E>(reply: Result<Vec<Entry<D>>, StoreError<E>>) -> Result<
    Seq<(Seq<char>, D)>,
    StoreError<E>,
> {
    match reply {
        Ok(entries) => Ok(pairs(entries@)),
        Err(fault) => Err(fault),
    }
}

impl<D> Listing<D> {
    /// Advances the listing by the reply to its call. The result is in the order of the
    /// locations' text, without repetition.
    pub fn advance<E>(self, reply: Result<Vec<Entry<D>>, StoreError<E>>) -> (progress:
        ListingProgress<Listing<D>, Location, Vec<Entry<D>>, E>)
        ensures
            progress@ == self@.step(reply_pairs(reply)),
            match progress {
                Progress::Finish(Ok(entries)) => in_order(entries@),
                _ => true,
            },
    {
        let Listing { prefix, stage, deleted, objects } = self;
        match reply {
            Err(fault) => Progress::Finish(Err(Error::Store(fault))),
            Ok(listed) => {
                let mut objects = objects;
                merge(&mut objects, listed, &deleted);
                if stage == ListStage::Remote {
                    let call = Call::List(Side::Cache, copy_optional(&prefix));
                    let stage = ListStage::Cache;
                    Progress::Ask(Listing { prefix, stage, deleted, objects }, call)
                } else {
                    Progress::Finish(Ok(objects.into_entries()))
                }
            },
        }
    }
}

/// How a listing begins: it is refused where the cache was closed.
pub open spec fn listing_begun<S, D, E>(
    prefix: Option<Seq<char>>,
    state: CacheView<S>,
) -> ListingProgress<ListingView<D>, Seq<char>, Map<Seq<char>, D>, E> {
    if state.closed {
        Progress::Finish(Err(closed()))
    } else {
        Progress::Ask(
            ListingView {
                prefix,
                stage: ListStage::Remote,
                deleted: state.deleted,
                objects: Map::empty(),
            },
            Call::List(Side::Remote, prefix),
        )
    }
}

/// Some listed location was not deleted locally.
pub open spec fn any_visible(listed: Seq<Seq<char>>, deleted: Map<Seq<char>, u64>) -> bool {
    exists|i: int| 0 <= i < listed.len() && !deleted.contains_key(#[trigger] listed[i])
}

/// The prefixes, joined by those of `more` that are not among them yet.
pub open spec fn joined(prefixes: Seq<Seq<char>>, more: Seq<Seq<char>>) -> Seq<Seq<char>>
    decreases more.len(),
{
    if more.len() == 0 {
        prefixes
    } else {
        let before = joined(prefixes, more.drop_last());
        if before.contains(more.last()) {
            before
        } else {
            before.push(more.last())
        }
    }
}

/// The texts stand in lexicographic order.
pub open spec fn nondescending(texts: Seq<Seq<char>>) -> bool {
    forall|i: int, j: int|
        0 <= i < j < texts.len() ==> !precedes(#[trigger] texts[j], #[trigger] texts[i])
}

/// Adds the prefixes that are not among the others yet.
fn join(prefixes: &mut Vec<Location>, more: &Vec<Location>)
    ensures
        texts(final(prefixes)@) == joined(texts(old(prefixes)@), texts(more@)),
{
    let ghost before = texts(prefixes@);
    let ghost all = texts(more@);
    proof {
        assert(all.take(0) =~= Seq::empty());
    }
    for i in 0..more.len()
        invariant
            all == texts(more@),
            texts(prefixes@) == joined(before, all.take(i as int)),
    {
        let ghost so_far = texts(prefixes@);
        proof {
            assert(all.take(i + 1).drop_last() =~= all.take(i as int));
        }
        if !among(prefixes, &more[i]) {
            let prefix = more[i].clone();
            prefixes.push(prefix);
            proof {
                assert(texts(prefixes@) =~= so_far.push(prefix@));
            }
        }
    }
    proof {
        assert(all.take(all.len() as int) =~= all);
    }
}

/// Whether the location is among the others.
fn among(locations: &Vec<Location>, location: &Location) -> (found: bool)
    ensures
        found == texts(locations@).contains(location@),
{
    for i in 0..locations.len()
        invariant
            forall|j: int| 0 <= j < i ==> #[trigger] locations@[j]@ != location@,
    {
        if locations[i].is_same(location) {
            proof {
                assert(texts(locations@)[i as int] == location@);
            }
            return true;
        }
    }
    proof {
        assert forall|j: int| 0 <= j < texts(locations@).len() implies texts(locations@)[j]
            != location@ by {
            assert(locations@[j]@ != location@);
        }
    }
    false
}

/// The locations in lexicographic order.
fn sorted(locations: Vec<Location>) -> (result: Vec<Location>)
    ensures
        nondescending(texts(result@)),
        texts(result@).to_multiset() == texts(locations@).to_multiset(),
{
    let ghost all = texts(locations@);
    let mut result: Vec<Location> = Vec::new();
    proof {
        assert(all.take(0) =~= texts(result@));
    }
    for i in 0..locations.len()
        invariant
            all == texts(locations@),
            nondescending(texts(result@)),
            texts(result@).to_multiset() == all.take(i as int).to_multiset(),
    {
        let location = locations[i].clone();
        let ghost before = texts(result@);
        let ghost text = location@;
        let mut position: usize = 0;
        while position < result.len() && !text_precedes(
            location.as_str(),
            result[position].as_str(),
        )
            invariant
                position <= result@.len(),
                before == texts(result@),
                text == location@,
                forall|j: int| 0 <= j < position ==> !precedes(text, #[trigger] before[j]),
            decreases result.len() - position,
        {
            position = position + 1;
        }
        result.insert(position, location);
        proof {
            let after = texts(result@);
            assert(after =~= before.insert(position as int, text));
            lemma_insertion(before, position as int, text);
            assert(all.take(i + 1) =~= all.take(i as int).push(text));
            vstd::seq_lib::to_multiset_build(all.take(i as int), text);
        }
    }
    proof {
        assert(all.take(all.len() as int) =~= all);
    }
    result
}

proof fn lemma_insertion(before: Seq<Seq<char>>, at: int, text: Seq<char>)
    requires
        nondescending(before),
        0 <= at <= before.len(),
        forall|j: int| 0 <= j < at ==> !precedes(text, #[trigger] before[j]),
        at < before.len() ==> precedes(text, before[at]),
    ensures
        nondescending(before.insert(at, text)),
        before.insert(at, text).to_multiset() == before.to_multiset().insert(text),
{
    let after = before.insert(at, text);
    assert forall|i: int, j: int| 0 <= i < j < after.len() implies !precedes(
        #[trigger] after[j],
        #[trigger] after[i],
    ) by {
        if j == at {
            assert(after[i] == before[i]);
        } else if i == at {
            let k = j - 1;
            assert(after[j] == before[k]);
            if precedes(before[k], text) {
                lemma_precedes_transitive(before[k], text, before[at]);
                if k == at {
                    lemma_precedes_asymmetric(before[k], before[at]);
                }
            }
        } else {
            let p = if i < at { i } else { i - 1 };
            let q = if j < at { j } else { j - 1 };
            assert(after[i] == before[p]);
            assert(after[j] == before[q]);
        }
    }
    vstd::seq_lib::to_multiset_insert(before, at, text);
}

/// One level of a listing: the objects directly under a prefix, and the prefixes below it.
#[derive(Debug)]
pub struct Directory<D> {
    pub objects: Vec<Entry<D>>,
    pub common_prefixes: Vec<Location>,
}

/// What a store replies as one level of a listing, with the locations in it as text.
#[verifier::ext_equal]
pub struct DirectoryView<D> {
    pub objects: Seq<(Seq<char>, D)>,
    pub common_prefixes: Seq<Seq<char>>,
}

impl<D> View for Directory<D> {
    type V = DirectoryView<D>;

    open spec fn view(&self) -> DirectoryView<D> {
        DirectoryView {
            objects: pairs(self.objects@),
            common_prefixes: texts(self.common_prefixes@),
        }
    }
}

/// What one level of a listing holds, apart from its order.
#[verifier::ext_equal]
pub struct DirectoryContents<D> {
    pub objects: Map<Seq<char>, D>,
    pub common_prefixes: Multiset<Seq<char>>,
}

/// The reply to a call of a listing of one level. `R` is the type of a level, `O` that of a
/// listing.
#[derive(Debug)]
pub enum DirectoryReply<R, O, E> {
    /// The result of the caller's own request.
    Level(R),
    /// The locations of the objects that were listed.
    Objects(O),
    /// The call failed.
    Fault(StoreError<E>),
}

impl<D, E> View for DirectoryReply<Directory<D>, Vec<Location>, E> {
    type V = DirectoryReply<DirectoryView<D>, Seq<Seq<char>>, E>;

    open spec fn view(&self) -> DirectoryReply<DirectoryView<D>, Seq<Seq<char>>, E> {
        match *self {
            DirectoryReply::Level(level) => DirectoryReply::Level(level@),
            DirectoryReply::Objects(locations) => DirectoryReply::Objects(texts(locations@)),
            DirectoryReply::Fault(fault) => DirectoryReply::Fault(fault),
        }
    }
}

/// Which call a listing of one level waits for.
#[derive(Debug, Clone, Copy, PartialEq, Eq, Structural)]
pub enum DirectoryStage {
    /// The level in the backing store.
    Remote,
    /// The level in the cache.
    Cache,
    /// What the cache holds under a prefix of the level.
    ProbingCache,
    /// What the backing store holds under that prefix.
    ProbingRemote,
}

/// A listing of one level that waits for a reply.
#[derive(Debug)]
pub struct DirectoryListing<D> {
    stage: DirectoryStage,
    deleted: LocationMap<u64>,
    objects: LocationMap<D>,
    candidates: Vec<Location>,
    position: usize,
    visible: Vec<Location>,
}

/// What a [`DirectoryListing`] holds.
#[verifier::ext_equal]
pub struct DirectoryListingView<D> {
    /// Which call it waits for.
    pub stage: DirectoryStage,
    /// The local deletions as they stood when the listing began.
    pub deleted: Map<Seq<char>, u64>,
    /// The objects found so far.
    pub objects: Map<Seq<char>, D>,
    /// The prefixes that may turn out to hold nothing.
    pub candidates: Seq<Seq<char>>,
    /// The prefixes that hold an object that was not deleted locally.
    pub visible: Seq<Seq<char>>,
}

impl<D> View for DirectoryListing<D> {
    type V = DirectoryListingView<D>;

    closed spec fn view(&self) -> DirectoryListingView<D> {
        DirectoryListingView {
            stage: self.stage,
            deleted: self.deleted@,
            objects: self.objects@,
            candidates: texts(self.candidates@).skip(self.position as int),
            visible: texts(self.visible@),
        }
    }
}

impl<D, E> View for ListingProgress<DirectoryListing<D>, Location, Directory<D>, E> {
    type V = ListingProgress<DirectoryListingView<D>, Seq<char>, DirectoryContents<D>, E>;

    open spec fn view(&self) -> ListingProgress<
        DirectoryListingView<D>,
        Seq<char>,
        DirectoryContents<D>,
        E,
    > {
        match *self {
            Progress::Ask(listing, call) => Progress::Ask(listing@, call@),
            Progress::Finish(Ok(level)) => Progress::Finish(
                Ok(
                    DirectoryContents {
                        objects: map_of(level.objects@),
                        common_prefixes: texts(level.common_prefixes@).to_multiset(),
                    },
                ),
            ),
            Progress::Finish(Err(error)) => Progress::Finish(Err(error@)),
        }
    }
}

impl<D> DirectoryListingView<D> {
    /// The reply is one that the call the listing waits for can have.
    pub open spec fn awaits<R, O, E>(self, reply: DirectoryReply<R, O, E>) -> bool {
        reply is Fault || match self.stage {
            DirectoryStage::Remote | DirectoryStage::Cache => reply is Level,
            DirectoryStage::ProbingCache | DirectoryStage::ProbingRemote => reply is Objects,
        }
    }

    /// Looks at the next prefix, in the cache first; ends when none is left.
    pub open spec fn probe<E>(self) -> ListingProgress<
        DirectoryListingView<D>,
        Seq<char>,
        DirectoryContents<D>,
        E,
    > {
        if self.candidates.len() > 0 {
            Progress::Ask(
                DirectoryListingView { stage: DirectoryStage::ProbingCache, ..self },
                Call::List(Side::Cache, Some(self.candidates[0])),
            )
        } else {
            Progress::Finish(
                Ok(
                    DirectoryContents {
                        objects: self.objects,
                        common_prefixes: self.visible.to_multiset(),
                    },
                ),
            )
        }
    }

    /// The listing after the prefix was found to hold something, or nothing.
    pub open spec fn decided(self, holds: bool) -> Self {
        DirectoryListingView {
            candidates: self.candidates.drop_first(),
            visible: if holds {
                self.visible.push(self.candidates[0])
            } else {
                self.visible
            },
            ..self
        }
    }

    /// The next move after a reply.
    pub open spec fn step<E>(
        self,
        reply: DirectoryReply<DirectoryView<D>, Seq<Seq<char>>, E>,
    ) -> ListingProgress<DirectoryListingView<D>, Seq<char>, DirectoryContents<D>, E> {
        match reply {
            DirectoryReply::Level(level) => {
                let known = DirectoryListingView {
                    objects: merged(self.objects, level.objects, self.deleted),
                    candidates: joined(self.candidates, level.common_prefixes),
                    ..self
                };
                if self.stage == DirectoryStage::Remote {
                    Progress::Ask(
                        DirectoryListingView {
                            stage: DirectoryStage::Cache,
                            candidates: level.common_prefixes,
                            ..known
                        },
                        Call::Forward(Side::Cache),
                    )
                } else {
                    known.probe()
                }
            },
            DirectoryReply::Objects(listed) => if any_visible(listed, self.deleted) {
                self.decided(true).probe()
            } else if self.stage == DirectoryStage::ProbingCache {
                Progress::Ask(
                    DirectoryListingView { stage: DirectoryStage::ProbingRemote, ..self },
                    Call::List(Side::Remote, Some(self.candidates[0])),
                )
            } else {
                self.decided(false).probe()
            },
            DirectoryReply::Fault(fault) => Progress::Finish(Err(Error::Store(fault))),
        }
    }
}

impl<D> DirectoryListing<D> {
    #[verifier::type_invariant]
    spec fn has_work(self) -> bool {
        &&& self.stage is Remote || self.stage is Cache ==> self.position == 0
        &&& self.stage is ProbingCache || self.stage is ProbingRemote ==> self.position
            < self.candidates@.len()
    }

    fn probe<E>(
        deleted: LocationMap<u64>,
        objects: LocationMap<D>,
        candidates: Vec<Location>,
        position: usize,
        visible: Vec<Location>,
    ) -> (progress: ListingProgress<DirectoryListing<D>, Location, Directory<D>, E>)
        requires
            position <= candidates@.len(),
        ensures
            progress@ == (DirectoryListingView {
                stage: DirectoryStage::ProbingCache,
                deleted: deleted@,
                objects: objects@,
                candidates: texts(candidates@).skip(position as int),
                visible: texts(visible@),
            }).probe::<E>(),
            match progress {
                Progress::Finish(Ok(level)) => in_order(level.objects@) && nondescending(
                    texts(level.common_prefixes@),
                ),
                _ => true,
            },
    {
        if position < candidates.len() {
            let call = Call::List(Side::Cache, Some(candidates[position].clone()));
            let stage = DirectoryStage::ProbingCache;
            Progress::Ask(
                DirectoryListing { stage, deleted, objects, candidates, position, visible },
                call,
            )
        } else {
            Progress::Finish(
                Ok(
                    Directory {
                        objects: objects.into_entries(),
                        common_prefixes: sorted(visible),
                    },
                ),
            )
        }
    }

    /// Advances the listing by the reply to its call. Objects and prefixes of the result are in
    /// the order of their text, and no object is repeated.
    pub fn advance<E>(
        self,
        reply: DirectoryReply<Directory<D>, Vec<Location>, E>,
    ) -> (progress: ListingProgress<DirectoryListing<D>, Location, Directory<D>, E>)
        requires
            self@.awaits(reply),
        ensures
            progress@ == self@.step(reply@),
            match progress {
                Progress::Finish(Ok(level)) => in_order(level.objects@) && nondescending(
                    texts(level.common_prefixes@),
                ),
                _ => true,
            },
    {
        proof {
            use_type_invariant(&self);
        }
        let DirectoryListing { stage, deleted, objects, candidates, position, visible } = self;
        match reply {
            DirectoryReply::Fault(fault) => Progress::Finish(Err(Error::Store(fault))),
            DirectoryReply::Level(level) => {
                let Directory { objects: listed, common_prefixes } = level;
                let mut objects = objects;
                merge(&mut objects, listed, &deleted);
                if stage == DirectoryStage::Remote {
                    let stage = DirectoryStage::Cache;
                    let candidates = common_prefixes;
                    proof {
                        assert(texts(candidates@).skip(0) =~= texts(candidates@));
                    }
                    Progress::Ask(
                        DirectoryListing {
                            stage,
                            deleted,
                            objects,
                            candidates,
                            position: 0,
                            visible,
                        },
                        Call::Forward(Side::Cache),
                    )
                } else {
                    let mut candidates = candidates;
                    proof {
                        assert(texts(candidates@).skip(0) =~= texts(candidates@));
                    }
                    join(&mut candidates, &common_prefixes);
                    proof {
                        assert(texts(candidates@).skip(0) =~= texts(candidates@));
                    }
                    Self::probe(deleted, objects, candidates, 0, visible)
                }
            },
            DirectoryReply::Objects(listed) => {
                let ghost seen = texts(visible@);
                proof {
                    assert(position < candidates.len() <= usize::MAX);
                    assert(texts(candidates@).skip(position as int).drop_first() =~= texts(
                        candidates@,
                    ).skip(position + 1));
                }
                let mut visible = visible;
                if LocalCacheObjectStore::has_visible_descendants(&listed, &deleted) {
                    let prefix = candidates[position].clone();
                    visible.push(prefix);
                    proof {
                        assert(texts(visible@) =~= seen.push(prefix@));
                    }
                    Self::probe(deleted, objects, candidates, position + 1, visible)
                } else if stage == DirectoryStage::ProbingCache {
                    let call = Call::List(Side::Remote, Some(candidates[position].clone()));
                    let stage = DirectoryStage::ProbingRemote;
                    Progress::Ask(
                        DirectoryListing { stage, deleted, objects, candidates, position, visible },
                        call,
                    )
                } else {
                    Self::probe(deleted, objects, candidates, position + 1, visible)
                }
            },
        }
    }
}

/// How a listing of one level begins: it is refused where the cache was closed.
pub open spec fn directory_begun<S, D, E>(state: CacheView<S>) -> ListingProgress<
    DirectoryListingView<D>,
    Seq<char>,
    DirectoryContents<D>,
    E,
> {
    if state.closed {
        Progress::Finish(Err(closed()))
    } else {
        Progress::Ask(
            DirectoryListingView {
                stage: DirectoryStage::Remote,
                deleted: state.deleted,
                objects: Map::empty(),
                candidates: Seq::empty(),
                visible: Seq::empty(),
            },
            Call::Forward(Side::Remote),
        )
    }
}

impl<S> LocalCacheObjectStore<S> {
    /// Lists the objects under the prefix: those of the backing store and those of the cache,
    /// without those that were deleted locally.
    pub fn list<D, E>(&self, prefix: Option<Location>) -> (progress: ListingProgress<
        Listing<D>,
        Location,
        Vec<Entry<D>>,
        E,
    >)
        ensures
            progress@ == listing_begun::<S, D, E>(optional_text(prefix), self@),
    {
        match self.check_open::<E>() {
            Err(error) => Progress::Finish(Err(error)),
            Ok(_) => {
                let call = Call::List(Side::Remote, copy_optional(&prefix));
                Progress::Ask(
                    Listing {
                        prefix,
                        stage: ListStage::Remote,
                        deleted: self.deleted_snapshot(),
                        objects: LocationMap::new(),
                    },
                    call,
                )
            },
        }
    }

    /// Lists one level: the objects directly under the caller's prefix, and the prefixes below
    /// it that hold an object that was not deleted locally.
    pub fn list_with_delimiter<D, E>(&self) -> (progress: ListingProgress<
        DirectoryListing<D>,
        Location,
        Directory<D>,
        E,
    >)
        ensures
            progress@ == directory_begun::<S, D, E>(self@),
    {
        match self.check_open::<E>() {
            Err(error) => Progress::Finish(Err(error)),
            Ok(_) => {
                let listing = DirectoryListing {
                    stage: DirectoryStage::Remote,
                    deleted: self.deleted_snapshot(),
                    objects: LocationMap::new(),
                    candidates: Vec::new(),
                    position: 0,
                    visible: Vec::new(),
                };
                proof {
                    assert(listing@.candidates =~= Seq::<Seq<char>>::empty());
                    assert(listing@.visible =~= Seq::<Seq<char>>::empty());
                }
                Progress::Ask(listing, Call::Forward(Side::Remote))
            },
        }
    }
}

impl LocalCacheObjectStore<()> {
    /// Whether some listed location was not deleted locally.
    pub fn has_visible_descendants(
        objects: &Vec<Location>,
        deleted: &LocationMap<u64>,
    ) -> (result: bool)
        ensures
            result == any_visible(texts(objects@), deleted@),
    {
        for i in 0..objects.len()
            invariant
                forall|j: int|
                    0 <= j < i ==> deleted@.contains_key(#[trigger] texts(objects@)[j]),
        {
            if !deleted.contains_key(&objects[i]) {
                proof {
                    assert(!deleted@.contains_key(texts(objects@)[i as int]));
                }
                return true;
            }
            proof {
                assert(texts(objects@)[i as int] == objects@[i as int]@);
            }
        }
        false
    }
}

} // verus!
