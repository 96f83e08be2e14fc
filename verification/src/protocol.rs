//! What an operation asks of the stores underneath, and what they answer.
//!
//! An operation on a wrapped store takes several calls to the stores underneath. It is a value
//! that is advanced by one reply at a time: each advance yields the next call together with the
//! operation that waits for its reply, or the operation's result.
//!
//! The types are generic in `L`, the type of a location: executable code uses [`Location`], and
//! specifications use its text.

use crate::location::Location;
use crate::location_map::texts;
use vstd::prelude::*;

verus! {

/// A store underneath the local cache.
#[derive(Debug, Clone, Copy, PartialEq, Eq, Structural)]
pub enum Side {
    /// The backing object store.
    Remote,
    /// The local store that reads and writes go to first.
    Cache,
}

/// A call to one of the stores underneath.
#[derive(Debug)]
pub enum Call<L, P> {
    /// Make the caller's own request, unchanged, of this store.
    Forward(Side),
    /// Read the whole object at the location.
    Fetch(Side, L),
    /// Write the payload as the whole object at the location.
    Store(Side, L, P),
    /// Ask for the metadata of the object at the location.
    Probe(Side, L),
    /// Delete the object at the location.
    Delete(Side, L),
    /// List every object under the prefix.
    List(Side, Option<L>),
}

/// A failure that a store reports, told apart by what the operations react to.
#[derive(Debug)]
pub enum StoreError<E> {
    /// There is no object at the location.
    NotFound(E),
    /// Any other failure.
    Other(E),
}

/// The reply to a call.
#[derive(Debug)]
pub enum Reply<P, A, E> {
    /// The result of the caller's own request.
    Answer(A),
    /// The content of the object that was read.
    Payload(P),
    /// The call was carried out.
    Done,
    /// The call failed.
    Fault(StoreError<E>),
}

/// The reply to a call of an operation that brings the two stores in line. `O` is the type of a
/// listing.
#[derive(Debug)]
pub enum SyncReply<O, P, E> {
    /// The locations of the objects that were listed.
    Objects(O),
    /// The content of the object that was read.
    Payload(P),
    /// The call was carried out.
    Done,
    /// The call failed.
    Fault(StoreError<E>),
}

/// Why an operation failed.
#[derive(Debug)]
pub enum Error<L, E> {
    /// There is no object at the location.
    NotFound { path: L, source: &'static str },
    /// The wrapper refuses the operation.
    Generic { store: &'static str, source: &'static str },
    /// A store underneath failed.
    Store(StoreError<E>),
}

/// An operation's next move.
#[derive(Debug)]
pub enum Progress<O, C, T> {
    /// Make the call, and advance the operation with the reply.
    Ask(O, C),
    /// The operation is over, with this result.
    Finish(T),
}

/// The text of an optional location.
pub open spec fn optional_text(location: Option<Location>) -> Option<Seq<char>> {
    match location {
        Some(location) => Some(location@),
        None => None,
    }
}

/// A copy of an optional location.
pub fn copy_optional(location: &Option<Location>) -> (copy: Option<Location>)
    ensures
        optional_text(copy) == optional_text(*location),
{
    match location {
        Some(location) => Some(location.clone()),
        None => None,
    }
}

impl<P> View for Call<Location, P> {
    type V = Call<Seq<char>, P>;

    open spec fn view(&self) -> Call<Seq<char>, P> {
        match *self {
            Call::Forward(side) => Call::Forward(side),
            Call::Fetch(side, location) => Call::Fetch(side, location@),
            Call::Store(side, location, payload) => Call::Store(side, location@, payload),
            Call::Probe(side, location) => Call::Probe(side, location@),
            Call::Delete(side, location) => Call::Delete(side, location@),
            Call::List(side, prefix) => Call::List(side, optional_text(prefix)),
        }
    }
}

impl<P, E> View for SyncReply<Vec<Location>, P, E> {
    type V = SyncReply<Seq<Seq<char>>, P, E>;

    open spec fn view(&self) -> SyncReply<Seq<Seq<char>>, P, E> {
        match *self {
            SyncReply::Objects(locations) => SyncReply::Objects(texts(locations@)),
            SyncReply::Payload(payload) => SyncReply::Payload(payload),
            SyncReply::Done => SyncReply::Done,
            SyncReply::Fault(fault) => SyncReply::Fault(fault),
        }
    }
}

impl<E> View for Error<Location, E> {
    type V = Error<Seq<char>, E>;

    open spec fn view(&self) -> Error<Seq<char>, E> {
        match *self {
            Error::NotFound { path, source } => Error::NotFound { path: path@, source },
            Error::Generic { store, source } => Error::Generic { store, source },
            Error::Store(fault) => Error::Store(fault),
        }
    }
}

/// A result with the locations in it as text.
pub open spec fn result_view<T, E>(result: Result<T, Error<Location, E>>) -> Result<
    T,
    Error<Seq<char>, E>,
> {
    match result {
        Ok(value) => Ok(value),
        Err(error) => Err(error@),
    }
}

/// The call would change what the store on this side holds, the caller's own request aside.
pub open spec fn changes<L, P>(call: Call<L, P>, side: Side) -> bool {
    match call {
        Call::Store(on, _, _) => on == side,
        Call::Delete(on, _) => on == side,
        _ => false,
    }
}

} // verus!
