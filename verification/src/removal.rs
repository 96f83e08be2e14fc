//! Deletions through the local cache.

use crate::local_cache::{admitted, CacheView, LocalCacheObjectStore};
use crate::location::Location;
use crate::protocol::{Call, Error, Progress, Side, StoreError};
use vstd::prelude::*;

verus! {

/// How many deletions of one stream run at the same time.
pub const DELETE_CONCURRENCY: usize = 10;

/// A stream of deletions that was let in.
#[derive(Debug)]
pub struct Removals {
    admitted: (),
}

/// The deletion of one object, waiting for the cache to carry it out.
#[derive(Debug)]
pub struct Removal<L> {
    pub location: L,
}

/// The next move of a [`Removal`].
pub type RemovalProgress<L, E> = Progress<Removal<L>, Call<L, ()>, Result<L, Error<L, E>>>;

impl<E> View for RemovalProgress<Location, E> {
    type V = RemovalProgress<Seq<char>, E>;

    open spec fn view(&self) -> RemovalProgress<Seq<char>, E> {
        match *self {
            Progress::Ask(removal, call) => Progress::Ask(
                Removal { location: removal.location@ },
                call@,
            ),
            Progress::Finish(result) => Progress::Finish(location_result(result)),
        }
    }
}

/// The result of a deletion, with the locations in it as text.
pub open spec fn location_result<E>(result: Result<Location, Error<Location, E>>) -> Result<
    Seq<char>,
    Error<Seq<char>, E>,
> {
    match result {
        Ok(location) => Ok(location@),
        Err(error) => Err(error@),
    }
}

/// How the deletion of one item of the stream begins. A failure of the stream itself is handed
/// on.
pub open spec fn removal_begun<E>(item: Result<Seq<char>, StoreError<E>>) -> RemovalProgress<
    Seq<char>,
    E,
> {
    match item {
        Ok(location) => Progress::Ask(Removal { location }, Call::Delete(Side::Cache, location)),
        Err(fault) => Progress::Finish(Err(Error::Store(fault))),
    }
}

impl Removal<Seq<char>> {
    /// The state and the result after the cache's reply. An object that the cache lacks is
    /// deleted all the same.
    pub open spec fn step<S, E>(self, state: CacheView<S>, reply: Result<(), StoreError<E>>) -> (
        CacheView<S>,
        Result<Seq<char>, Error<Seq<char>, E>>,
    ) {
        match reply {
            Err(StoreError::Other(fault)) => (
                state,
                Err(Error::Store(StoreError::Other(fault))),
            ),
            _ => (state.marked_deleted(self.location), Ok(self.location)),
        }
    }
}

impl<S> LocalCacheObjectStore<S> {
    /// Lets a stream of deletions in, unless the cache was closed. A stream that was let in runs to
    /// its end.
    pub fn delete_stream<E>(&self) -> (result: Result<Removals, Error<Location, E>>)
        ensures
            match result {
                Ok(_) => admitted::<S, Seq<char>, E>(self@) is Ok,
                Err(error) => admitted::<S, Seq<char>, E>(self@) == Err::<(), Error<Seq<char>, E>>(
                    error@,
                ),
            },
    {
        match self.check_open::<E>() {
            Ok(_) => Ok(Removals { admitted: () }),
            Err(error) => Err(error),
        }
    }
}

impl Removals {
    /// Begins the deletion of the next item of the stream.
    pub fn next<E>(&self, item: Result<Location, StoreError<E>>) -> (progress: RemovalProgress<
        Location,
        E,
    >)
        ensures
            progress@ == removal_begun::<E>(
                match item {
                    Ok(location) => Ok(location@),
                    Err(fault) => Err(fault),
                },
            ),
    {
        match item {
            Ok(location) => {
                let call = Call::Delete(Side::Cache, location.clone());
                Progress::Ask(Removal { location }, call)
            },
            Err(fault) => Progress::Finish(Err(Error::Store(fault))),
        }
    }
}

impl Removal<Location> {
    /// Ends the deletion with the cache's reply.
    pub fn advance<S, E>(
        self,
        store: &mut LocalCacheObjectStore<S>,
        reply: Result<(), StoreError<E>>,
    ) -> (result: Result<Location, Error<Location, E>>)
        ensures
            (final(store)@, location_result(result)) == (Removal {
                location: self.location@,
            }).step(old(store)@, reply),
            old(store)@.wf() ==> final(store)@.wf(),
    {
        match reply {
            Err(StoreError::Other(fault)) => Err(Error::Store(StoreError::Other(fault))),
            _ => {
                store.mark_deleted(self.location.clone());
                Ok(self.location)
            },
        }
    }
}

} // verus!
