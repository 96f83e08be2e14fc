//! A write-back cache in front of an object store: its state, and the rules it is changed by.

use crate::location::{file_name, Location};
use crate::location_map::{without_shared, LocationMap};
use crate::protocol::{copy_optional, optional_text, Call, Error, Side};
use crate::text::{ends_in, occurs, text_contains, text_ends_with};
use vstd::prelude::*;

verus! {

/// Storage option enabling object-store local cache mode.
pub const LOCAL_CACHE_DIR_OPTION: &'static str = "localcachedir";

/// What a [`LocalCacheObjectStore`] holds.
#[verifier::ext_equal]
pub struct CacheView<S> {
    /// The handle of the backing store.
    pub remote: S,
    /// The handle of the local store.
    pub cache: S,
    /// What `pull` is confined to.
    pub sync_prefix: Option<Seq<char>>,
    /// The locations written locally since they were last committed, each with the generation
    /// of its last write.
    pub dirty: Map<Seq<char>, u64>,
    /// The locations deleted locally since they were last committed, each with the generation
    /// of its deletion.
    pub deleted: Map<Seq<char>, u64>,
    /// The generation of the last change.
    pub change_generation: u64,
    /// Whether the cache was closed.
    pub closed: bool,
}

impl<S> CacheView<S> {
    /// No location is both written and deleted, no change is later than the last one, and changes
    /// of different locations have different generations, as long as the count has not reached its
    /// largest value.
    pub open spec fn wf(self) -> bool {
        &&& forall|text: Seq<char>|
            !(#[trigger] self.dirty.contains_key(text) && self.deleted.contains_key(text))
        &&& forall|text: Seq<char>| #[trigger]
            self.dirty.contains_key(text) ==> 1 <= self.dirty[text] <= self.change_generation
        &&& forall|text: Seq<char>| #[trigger]
            self.deleted.contains_key(text) ==> 1 <= self.deleted[text] <= self.change_generation
        &&& distinct(self.dirty, self.dirty)
        &&& distinct(self.deleted, self.deleted)
        &&& distinct(self.dirty, self.deleted)
    }

    /// The location was changed locally and the change is not committed.
    pub open spec fn is_changed(self, text: Seq<char>) -> bool {
        self.dirty.contains_key(text) || self.deleted.contains_key(text)
    }

    /// The generation of the next change; the count stops at its largest value.
    pub open spec fn next_generation(self) -> u64 {
        if self.change_generation == u64::MAX {
            u64::MAX
        } else {
            (self.change_generation + 1) as u64
        }
    }

    /// The state after a write to the location.
    pub open spec fn marked_dirty(self, text: Seq<char>) -> Self {
        CacheView {
            dirty: self.dirty.insert(text, self.next_generation()),
            deleted: self.deleted.remove(text),
            change_generation: self.next_generation(),
            ..self
        }
    }

    /// The state after a deletion of the location.
    pub open spec fn marked_deleted(self, text: Seq<char>) -> Self {
        CacheView {
            dirty: self.dirty.remove(text),
            deleted: self.deleted.insert(text, self.next_generation()),
            change_generation: self.next_generation(),
            ..self
        }
    }
}

impl<S> CacheView<S> {
    /// The state after the given changes were brought to the backing store: a change is
    /// forgotten only if it is still the last one of its location.
    pub open spec fn committed(
        self,
        dirty: Map<Seq<char>, u64>,
        deleted: Map<Seq<char>, u64>,
    ) -> Self {
        CacheView {
            dirty: without_shared(self.dirty, dirty),
            deleted: without_shared(self.deleted, deleted),
            ..self
        }
    }
}

/// Different locations have different generations in the two maps, unless the count of changes has
/// reached its largest value.
pub open spec fn distinct(a: Map<Seq<char>, u64>, b: Map<Seq<char>, u64>) -> bool {
    forall|s: Seq<char>, t: Seq<char>|
        s != t && #[trigger] a.contains_key(s) && #[trigger] b.contains_key(t) && a[s] == b[t]
            ==> a[s] == u64::MAX
}

/// The error of every operation on a closed cache.
pub open spec fn closed<L, E>() -> Error<L, E> {
    Error::Generic { store: "LocalCacheObjectStore", source: "local cache is closed" }
}

/// The error of reading a location that was deleted locally.
pub open spec fn deleted<E>(text: Seq<char>) -> Error<Seq<char>, E> {
    Error::NotFound { path: text, source: "object was deleted in local cache" }
}

/// Whether an operation is let in: a closed cache refuses it.
pub open spec fn admitted<S, L, E>(state: CacheView<S>) -> Result<(), Error<L, E>> {
    if state.closed {
        Err(closed())
    } else {
        Ok(())
    }
}

/// A file whose upload makes other files visible: a manifest, or a version of one.
pub open spec fn is_publication(text: Seq<char>) -> bool {
    ||| occurs(text, "_latest"@)
    ||| occurs(text, "_versions/"@)
    ||| occurs(text, "/_versions"@)
    ||| ends_in(file_name(text), ".manifest"@)
    ||| occurs(file_name(text), "manifest"@)
    ||| occurs(file_name(text), "version"@)
}

/// A file that describes payload files: metadata, a transaction or an index.
pub open spec fn is_metadata(text: Seq<char>) -> bool {
    ||| occurs(text, "_metadata"@)
    ||| occurs(file_name(text), "metadata"@)
    ||| occurs(text, "_transactions"@)
    ||| occurs(text, "_indices"@)
}

/// The turn in which a commit uploads the location: payload first, then metadata, and what
/// publishes them last.
pub open spec fn commit_rank(text: Seq<char>) -> u8 {
    if is_publication(text) {
        2
    } else if is_metadata(text) {
        1
    } else {
        0
    }
}

/// An object store that reads and writes a local store first and brings the changes to the
/// backing store on [`commit`](LocalCacheObjectStore::commit).
///
/// `S` is the handle of a store.
#[derive(Debug)]
pub struct LocalCacheObjectStore<S> {
    remote: S,
    cache: S,
    sync_prefix: Option<Location>,
    dirty: LocationMap<u64>,
    deleted: LocationMap<u64>,
    change_generation: u64,
    closed: bool,
}

impl<S> View for LocalCacheObjectStore<S> {
    type V = CacheView<S>;

    closed spec fn view(&self) -> CacheView<S> {
        CacheView {
            remote: self.remote,
            cache: self.cache,
            sync_prefix: optional_text(self.sync_prefix),
            dirty: self.dirty@,
            deleted: self.deleted@,
            change_generation: self.change_generation,
            closed: self.closed,
        }
    }
}

impl<S> LocalCacheObjectStore<S> {
    /// An open cache without local changes.
    pub fn new(remote: S, cache: S, sync_prefix: Option<Location>) -> (store: Self)
        ensures
            store@ == (CacheView {
                remote,
                cache,
                sync_prefix: optional_text(sync_prefix),
                dirty: Map::empty(),
                deleted: Map::empty(),
                change_generation: 0,
                closed: false,
            }),
            store@.wf(),
    {
        LocalCacheObjectStore {
            remote,
            cache,
            sync_prefix,
            dirty: LocationMap::new(),
            deleted: LocationMap::new(),
            change_generation: 0,
            closed: false,
        }
    }

    /// The handle of the store on this side.
    pub fn handle(&self, side: Side) -> (handle: &S)
        ensures
            *handle == (match side {
                Side::Remote => self@.remote,
                Side::Cache => self@.cache,
            }),
    {
        match side {
            Side::Remote => &self.remote,
            Side::Cache => &self.cache,
        }
    }

    /// The error of every operation on a closed cache.
    pub fn closed_error<E>() -> (error: Error<Location, E>)
        ensures
            error == closed::<Location, E>(),
    {
        Error::Generic { store: "LocalCacheObjectStore", source: "local cache is closed" }
    }

    /// Refuses where the cache was closed.
    pub fn check_open<E>(&self) -> (result: Result<(), Error<Location, E>>)
        ensures
            result == admitted::<S, Location, E>(self@),
    {
        if self.closed {
            Err(Self::closed_error())
        } else {
            Ok(())
        }
    }

    /// Whether the location was deleted locally and the deletion is not committed.
    pub fn is_deleted(&self, location: &Location) -> (result: bool)
        ensures
            result == self@.deleted.contains_key(location@),
    {
        self.deleted.contains_key(location)
    }

    /// Refuses where the location was deleted locally and the deletion is not committed, whatever
    /// the two stores hold there.
    pub fn check_not_deleted<E>(&self, location: &Location) -> (result: Result<
        (),
        Error<Location, E>,
    >)
        ensures
            match result {
                Ok(_) => !self@.deleted.contains_key(location@),
                Err(error) => self@.deleted.contains_key(location@) && error@ == deleted::<E>(
                    location@,
                ),
            },
    {
        if self.is_deleted(location) {
            Err(
                Error::NotFound {
                    path: location.clone(),
                    source: "object was deleted in local cache",
                },
            )
        } else {
            Ok(())
        }
    }

    /// Counts one more change and returns its generation. The count stops at its largest value.
    pub fn next_change_generation(&mut self) -> (generation: u64)
        ensures
            generation == old(self)@.next_generation(),
            final(self)@ == (CacheView { change_generation: generation, ..old(self)@ }),
    {
        self.change_generation = self.change_generation.saturating_add(1);
        self.change_generation
    }

    /// Records a local write to the location.
    pub fn mark_dirty(&mut self, location: Location)
        ensures
            final(self)@ == old(self)@.marked_dirty(location@),
            old(self)@.wf() ==> final(self)@.wf(),
    {
        let generation = self.next_change_generation();
        self.deleted.remove(&location);
        self.dirty.insert(location, generation);
    }

    /// Records a local deletion of the location.
    pub fn mark_deleted(&mut self, location: Location)
        ensures
            final(self)@ == old(self)@.marked_deleted(location@),
            old(self)@.wf() ==> final(self)@.wf(),
    {
        let generation = self.next_change_generation();
        self.dirty.remove(&location);
        self.deleted.insert(location, generation);
    }

    /// Starts to copy the object at the location from the backing store into the cache: the call
    /// that reads it, or the error where the location was deleted locally.
    pub fn populate_from_remote<P, E>(&self, location: &Location) -> (call: Result<
        Call<Location, P>,
        Error<Location, E>,
    >)
        ensures
            match call {
                Ok(call) => !self@.deleted.contains_key(location@) && call@ == Call::<
                    Seq<char>,
                    P,
                >::Fetch(Side::Remote, location@),
                Err(error) => self@.deleted.contains_key(location@) && error@ == deleted::<E>(
                    location@,
                ),
            },
    {
        match self.check_not_deleted(location) {
            Err(error) => Err(error),
            Ok(_) => Ok(Call::Fetch(Side::Remote, location.clone())),
        }
    }

    /// Closes the cache. What was not committed stays so.
    pub fn close<E>(&mut self) -> (result: Result<(), Error<Location, E>>)
        ensures
            result == Ok::<(), Error<Location, E>>(()),
            final(self)@ == (CacheView { closed: true, ..old(self)@ }),
    {
        self.closed = true;
        Ok(())
    }

    /// Forgets the changes that were brought to the backing store. A location that was changed
    /// again in the meantime stays changed.
    pub fn forget_committed(&mut self, dirty: &LocationMap<u64>, deleted: &LocationMap<u64>)
        ensures
            final(self)@ == old(self)@.committed(dirty@, deleted@),
            old(self)@.wf() ==> final(self)@.wf(),
    {
        self.dirty.drop_shared(dirty);
        self.deleted.drop_shared(deleted);
    }

    /// The prefix that `pull` is confined to.
    pub fn sync_prefix(&self) -> (prefix: Option<Location>)
        ensures
            optional_text(prefix) == self@.sync_prefix,
    {
        copy_optional(&self.sync_prefix)
    }

    /// The uncommitted writes as they stand, each with its generation.
    pub fn dirty_snapshot(&self) -> (snapshot: LocationMap<u64>)
        ensures
            snapshot@ == self@.dirty,
    {
        self.dirty.snapshot()
    }

    /// The uncommitted deletions as they stand, each with its generation.
    pub fn deleted_snapshot(&self) -> (snapshot: LocationMap<u64>)
        ensures
            snapshot@ == self@.deleted,
    {
        self.deleted.snapshot()
    }
}

impl LocalCacheObjectStore<()> {
    /// The turn in which a commit uploads the location: 0 for payload, 1 for metadata and 2 for
    /// what publishes them.
    pub fn commit_order(location: &Location) -> (order: u8)
        ensures
            order == commit_rank(location@),
    {
        let path = location.as_str();
        let name = location.filename_or_empty();
        let filename = name.as_str();
        if text_contains(path, "_latest") || text_contains(path, "_versions/") || text_contains(
            path,
            "/_versions",
        ) || text_ends_with(filename, ".manifest") || text_contains(filename, "manifest")
            || text_contains(filename, "version") {
            2
        } else if text_contains(path, "_metadata") || text_contains(filename, "metadata")
            || text_contains(path, "_transactions") || text_contains(path, "_indices") {
            1
        } else {
            0
        }
    }
}

} // verus!
