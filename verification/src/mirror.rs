//! An object store that mirrors writes to a second store.

use crate::location::{file_name, Location};
use crate::protocol::{Progress, StoreError};
use crate::text::{ends_in, text_ends_with};
use vstd::prelude::*;

verus! {

/// A store underneath the mirror.
#[derive(Debug, Clone, Copy, PartialEq, Eq, Structural)]
pub enum Tier {
    /// The durable store that reads go to.
    Primary,
    /// The faster, less durable store that writes go to first.
    Secondary,
}

/// Manifest files are not mirrored: they are written to the primary store alone.
pub open spec fn is_primary_only(text: Seq<char>) -> bool {
    ends_in(file_name(text), ".manifest"@)
}

impl Location {
    /// Whether the location is written to the primary store alone.
    pub fn primary_only(&self) -> (result: bool)
        ensures
            result == is_primary_only(self@),
    {
        let name = self.filename_or_empty();
        text_ends_with(name.as_str(), ".manifest")
    }
}

/// What a [`MirroringObjectStore`] holds.
pub struct MirrorView<S> {
    pub primary: S,
    pub secondary: S,
}

/// An object store that mirrors a write to the secondary store first and then commits it to the
/// primary store. Manifest files are written to the primary store alone.
///
/// This is meant to mirror writes to a less durable but lower-latency store. `S` is the handle of
/// a store.
#[derive(Debug)]
pub struct MirroringObjectStore<S> {
    primary: S,
    secondary: S,
}

impl<S> View for MirroringObjectStore<S> {
    type V = MirrorView<S>;

    closed spec fn view(&self) -> MirrorView<S> {
        MirrorView { primary: self.primary, secondary: self.secondary }
    }
}

/// Where a write begins: a mirrored one with the secondary store.
pub open spec fn first_tier(primary_only: bool) -> Tier {
    if primary_only {
        Tier::Primary
    } else {
        Tier::Secondary
    }
}

/// A write that waits for a store to carry it out.
#[derive(Debug, Clone, Copy, PartialEq, Eq, Structural)]
pub struct MirrorWrite {
    pub tier: Tier,
}

/// The next move of a [`MirrorWrite`]: the caller's own request, of one of the stores, or the
/// result.
pub type WriteProgress<A, E> = Progress<MirrorWrite, Tier, Result<A, E>>;

/// The write, asked of the given store.
pub open spec fn write_at<A, E>(tier: Tier) -> WriteProgress<A, E> {
    Progress::Ask(MirrorWrite { tier }, tier)
}

impl MirrorWrite {
    /// The next move after a reply: the primary store follows the secondary one, and only if
    /// that did not fail.
    pub open spec fn step<A, E>(self, reply: Result<A, E>) -> WriteProgress<A, E> {
        if self.tier == Tier::Secondary && reply is Ok {
            write_at(Tier::Primary)
        } else {
            Progress::Finish(reply)
        }
    }

    fn at<A, E>(tier: Tier) -> (progress: WriteProgress<A, E>)
        ensures
            progress == write_at::<A, E>(tier),
    {
        Progress::Ask(MirrorWrite { tier }, tier)
    }

    /// Advances the write by the reply of the store.
    pub fn advance<A, E>(self, reply: Result<A, E>) -> (progress: WriteProgress<A, E>)
        ensures
            progress == self.step(reply),
    {
        match self.tier {
            Tier::Primary => Progress::Finish(reply),
            Tier::Secondary => match reply {
                Ok(_) => Self::at(Tier::Primary),
                Err(fault) => Progress::Finish(Err(fault)),
            },
        }
    }
}

/// A write in parts to both stores. `U` is the handle of the write in one store.
#[derive(Debug)]
pub struct MirroringUpload<U> {
    pub primary: U,
    pub secondary: U,
}

impl<U> MirroringUpload<U> {
    /// Writes a part. Both stores are handed the part beforehand, in the order that stands first
    /// in the result. Then the write to the secondary store is carried out, and after it the one to
    /// the primary store.
    pub fn put_part<A, E>(&self) -> (part: ((Tier, Tier), WriteProgress<A, E>))
        ensures
            part.0 == (Tier::Primary, Tier::Secondary),
            part.1 == write_at::<A, E>(Tier::Secondary),
    {
        ((Tier::Primary, Tier::Secondary), MirrorWrite::at(Tier::Secondary))
    }

    /// Completes the write: in the secondary store, and then in the primary one.
    pub fn complete<A, E>(&self) -> (progress: WriteProgress<A, E>)
        ensures
            progress == write_at::<A, E>(Tier::Secondary),
    {
        MirrorWrite::at(Tier::Secondary)
    }

    /// Abandons the write: in the secondary store, and then in the primary one.
    pub fn abort<A, E>(&self) -> (progress: WriteProgress<A, E>)
        ensures
            progress == write_at::<A, E>(Tier::Secondary),
    {
        MirrorWrite::at(Tier::Secondary)
    }
}

/// A write in parts, once it has begun.
#[derive(Debug)]
pub enum BegunUpload<U> {
    /// To the primary store alone.
    Single(U),
    /// To both stores.
    Mirrored(MirroringUpload<U>),
}

/// The beginning of a write in parts, waiting for a store to carry it out.
#[derive(Debug)]
pub enum MirrorMultipart<U> {
    /// The primary store, which alone is written to.
    PrimaryOnly,
    /// The secondary store.
    Secondary,
    /// The primary store; the write in the secondary store has begun.
    Primary(U),
}

/// The next move of a [`MirrorMultipart`].
pub type MultipartProgress<U, E> = Progress<MirrorMultipart<U>, Tier, Result<BegunUpload<U>, E>>;

/// How a write in parts to the location begins.
pub open spec fn multipart_begun<U, E>(text: Seq<char>) -> MultipartProgress<U, E> {
    if is_primary_only(text) {
        Progress::Ask(MirrorMultipart::PrimaryOnly, Tier::Primary)
    } else {
        Progress::Ask(MirrorMultipart::Secondary, Tier::Secondary)
    }
}

impl<U> MirrorMultipart<U> {
    /// The next move after a reply.
    pub open spec fn step<E>(self, reply: Result<U, E>) -> MultipartProgress<U, E> {
        match reply {
            Err(fault) => Progress::Finish(Err(fault)),
            Ok(upload) => match self {
                MirrorMultipart::PrimaryOnly => Progress::Finish(Ok(BegunUpload::Single(upload))),
                MirrorMultipart::Secondary => Progress::Ask(
                    MirrorMultipart::Primary(upload),
                    Tier::Primary,
                ),
                MirrorMultipart::Primary(secondary) => Progress::Finish(
                    Ok(
                        BegunUpload::Mirrored(
                            MirroringUpload { primary: upload, secondary },
                        ),
                    ),
                ),
            },
        }
    }

    /// Advances by the reply of the store.
    pub fn advance<E>(self, reply: Result<U, E>) -> (progress: MultipartProgress<U, E>)
        ensures
            progress == self.step(reply),
    {
        match reply {
            Err(fault) => Progress::Finish(Err(fault)),
            Ok(upload) => match self {
                MirrorMultipart::PrimaryOnly => Progress::Finish(Ok(BegunUpload::Single(upload))),
                MirrorMultipart::Secondary => Progress::Ask(
                    MirrorMultipart::Primary(upload),
                    Tier::Primary,
                ),
                MirrorMultipart::Primary(secondary) => Progress::Finish(
                    Ok(
                        BegunUpload::Mirrored(
                            MirroringUpload { primary: upload, secondary },
                        ),
                    ),
                ),
            },
        }
    }
}

/// A deletion that waits for a store to carry it out.
#[derive(Debug)]
pub struct MirrorDelete<L> {
    pub location: L,
    pub tier: Tier,
}

/// The next move of a [`MirrorDelete`].
pub type DeleteProgress<L, E> = Progress<MirrorDelete<L>, Tier, Result<L, StoreError<E>>>;

impl<E> View for DeleteProgress<Location, E> {
    type V = DeleteProgress<Seq<char>, E>;

    open spec fn view(&self) -> DeleteProgress<Seq<char>, E> {
        match *self {
            Progress::Ask(delete, tier) => Progress::Ask(
                MirrorDelete { location: delete.location@, tier: delete.tier },
                tier,
            ),
            Progress::Finish(Ok(location)) => Progress::Finish(Ok(location@)),
            Progress::Finish(Err(fault)) => Progress::Finish(Err(fault)),
        }
    }
}

/// The deletion, asked of the given store.
pub open spec fn delete_at<L, E>(location: L, tier: Tier) -> DeleteProgress<L, E> {
    Progress::Ask(MirrorDelete { location, tier }, tier)
}

/// How the deletion of one item of a stream begins. A failure of the stream itself is handed on.
pub open spec fn delete_begun<E>(item: Result<Seq<char>, StoreError<E>>) -> DeleteProgress<
    Seq<char>,
    E,
> {
    match item {
        Ok(location) => delete_at(location, first_tier(is_primary_only(location))),
        Err(fault) => Progress::Finish(Err(fault)),
    }
}

impl<L> MirrorDelete<L> {
    /// The next move after a reply: an object that the secondary store lacks is deleted from the
    /// primary store all the same.
    pub open spec fn step<E>(self, reply: Result<(), StoreError<E>>) -> DeleteProgress<L, E> {
        match self.tier {
            Tier::Secondary => match reply {
                Err(StoreError::Other(fault)) => Progress::Finish(Err(StoreError::Other(fault))),
                _ => delete_at(self.location, Tier::Primary),
            },
            Tier::Primary => match reply {
                Err(fault) => Progress::Finish(Err(fault)),
                Ok(_) => Progress::Finish(Ok(self.location)),
            },
        }
    }
}

impl MirrorDelete<Location> {
    /// Advances the deletion by the reply of the store.
    pub fn advance<E>(self, reply: Result<(), StoreError<E>>) -> (progress: DeleteProgress<
        Location,
        E,
    >)
        ensures
            progress@ == (MirrorDelete { location: self.location@, tier: self.tier }).step(reply),
    {
        match self.tier {
            Tier::Secondary => match reply {
                Err(StoreError::Other(fault)) => Progress::Finish(Err(StoreError::Other(fault))),
                _ => Progress::Ask(
                    MirrorDelete { location: self.location, tier: Tier::Primary },
                    Tier::Primary,
                ),
            },
            Tier::Primary => match reply {
                Err(fault) => Progress::Finish(Err(fault)),
                Ok(_) => Progress::Finish(Ok(self.location)),
            },
        }
    }
}

impl<S> MirroringObjectStore<S> {
    /// A mirror of the two stores.
    pub fn new(primary: S, secondary: S) -> (store: Self)
        ensures
            store@ == (MirrorView { primary, secondary }),
    {
        MirroringObjectStore { primary, secondary }
    }

    /// The handle of the store.
    pub fn handle(&self, tier: Tier) -> (handle: &S)
        ensures
            *handle == (match tier {
                Tier::Primary => self@.primary,
                Tier::Secondary => self@.secondary,
            }),
    {
        match tier {
            Tier::Primary => &self.primary,
            Tier::Secondary => &self.secondary,
        }
    }

    /// Where a write to the location begins.
    fn begin(location: &Location) -> (tier: Tier)
        ensures
            tier == first_tier(is_primary_only(location@)),
    {
        if location.primary_only() {
            Tier::Primary
        } else {
            Tier::Secondary
        }
    }

    /// Writes an object.
    pub fn put_opts<A, E>(&self, location: &Location) -> (progress: WriteProgress<A, E>)
        ensures
            progress == write_at::<A, E>(first_tier(is_primary_only(location@))),
    {
        MirrorWrite::at(Self::begin(location))
    }

    /// Begins a write in parts.
    pub fn put_multipart_opts<U, E>(&self, location: &Location) -> (progress: MultipartProgress<
        U,
        E,
    >)
        ensures
            progress == multipart_begun::<U, E>(location@),
    {
        match Self::begin(location) {
            Tier::Primary => Progress::Ask(MirrorMultipart::PrimaryOnly, Tier::Primary),
            Tier::Secondary => Progress::Ask(MirrorMultipart::Secondary, Tier::Secondary),
        }
    }

    /// Copies an object. Where the copy goes decides what is written to.
    pub fn copy_opts<A, E>(&self, to: &Location) -> (progress: WriteProgress<A, E>)
        ensures
            progress == write_at::<A, E>(first_tier(is_primary_only(to@))),
    {
        MirrorWrite::at(Self::begin(to))
    }

    /// Begins the deletion of the next item of a stream.
    pub fn delete_stream<E>(&self, item: Result<Location, StoreError<E>>) -> (progress:
        DeleteProgress<Location, E>)
        ensures
            progress@ == delete_begun::<E>(
                match item {
                    Ok(location) => Ok(location@),
                    Err(fault) => Err(fault),
                },
            ),
    {
        match item {
            Ok(location) => {
                let tier = Self::begin(&location);
                Progress::Ask(MirrorDelete { location, tier }, tier)
            },
            Err(fault) => Progress::Finish(Err(fault)),
        }
    }

    /// The store that an object is read from.
    pub fn get_opts(&self) -> (tier: Tier)
        ensures
            tier == Tier::Primary,
    {
        Tier::Primary
    }

    /// The store that objects are listed from.
    pub fn list(&self) -> (tier: Tier)
        ensures
            tier == Tier::Primary,
    {
        Tier::Primary
    }

    /// The store that one level is listed from.
    pub fn list_with_delimiter(&self) -> (tier: Tier)
        ensures
            tier == Tier::Primary,
    {
        Tier::Primary
    }
}

} // verus!
