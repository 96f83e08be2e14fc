//! What writes through a mirror amount to.

use crate::laws::operations::performed;
use crate::laws::ranks::{is_manifest, law_manifests_alone_are_unmirrored};
use crate::laws::world::agree_at;
use crate::mirror::{
    delete_begun, first_tier, is_primary_only, multipart_begun, write_at, BegunUpload,
    DeleteProgress, MirrorDelete, MirrorMultipart, MirrorWrite, MirroringUpload,
    MultipartProgress, Tier, WriteProgress,
};
use crate::operation::Request;
use crate::protocol::{Progress, Reply, StoreError};
use vstd::prelude::*;

verus! {

/// The stores that are asked, in turn, and the result of the write.
pub open spec fn write_trace<A, E>(
    progress: WriteProgress<A, E>,
    replies: spec_fn(Tier) -> Result<A, E>,
    fuel: nat,
) -> Option<(Seq<Tier>, Result<A, E>)>
    decreases fuel,
{
    match progress {
        Progress::Finish(result) => Some((Seq::empty(), result)),
        Progress::Ask(write, tier) => if fuel == 0 {
            None
        } else {
            match write_trace(write.step(replies(tier)), replies, (fuel - 1) as nat) {
                None => None,
                Some((calls, result)) => Some((seq![tier] + calls, result)),
            }
        },
    }
}

/// A write goes to the secondary store first. Where that fails the primary store is not asked;
/// else its outcome is the outcome of the write. A manifest goes to the primary store alone.
pub proof fn law_secondary_first<A, E>(text: Seq<char>, replies: spec_fn(Tier) -> Result<A, E>)
    ensures
        write_trace(write_at(first_tier(is_primary_only(text))), replies, 2) == Some(
            if is_manifest(text) {
                (seq![Tier::Primary], replies(Tier::Primary))
            } else if replies(Tier::Secondary) is Err {
                (seq![Tier::Secondary], replies(Tier::Secondary))
            } else {
                (seq![Tier::Secondary, Tier::Primary], replies(Tier::Primary))
            },
        ),
{
    reveal_with_fuel(write_trace, 3);
    law_manifests_alone_are_unmirrored(text);
    assert(seq![Tier::Primary] + Seq::<Tier>::empty() =~= seq![Tier::Primary]);
    assert(seq![Tier::Secondary] + Seq::<Tier>::empty() =~= seq![Tier::Secondary]);
    assert(seq![Tier::Secondary] + (seq![Tier::Primary] + Seq::<Tier>::empty()) =~= seq![
        Tier::Secondary,
        Tier::Primary,
    ]);
}

/// The stores that are asked, in turn, and the result of the deletion.
pub open spec fn delete_trace<E>(
    progress: DeleteProgress<Seq<char>, E>,
    replies: spec_fn(Tier) -> Result<(), StoreError<E>>,
    fuel: nat,
) -> Option<(Seq<Tier>, Result<Seq<char>, StoreError<E>>)>
    decreases fuel,
{
    match progress {
        Progress::Finish(result) => Some((Seq::empty(), result)),
        Progress::Ask(delete, tier) => if fuel == 0 {
            None
        } else {
            match delete_trace(delete.step(replies(tier)), replies, (fuel - 1) as nat) {
                None => None,
                Some((calls, result)) => Some((seq![tier] + calls, result)),
            }
        },
    }
}

/// A deletion goes to the secondary store first. That the secondary store lacks the object is no
/// failure; where it fails otherwise, the primary store is not asked. The primary store has the
/// last word. A manifest is deleted from the primary store alone.
pub proof fn law_delete_secondary_first<E>(
    text: Seq<char>,
    replies: spec_fn(Tier) -> Result<(), StoreError<E>>,
)
    ensures
        ({
            let last = match replies(Tier::Primary) {
                Ok(_) => Ok::<Seq<char>, StoreError<E>>(text),
                Err(fault) => Err(fault),
            };
            delete_trace(delete_begun::<E>(Ok(text)), replies, 2) == Some(
                if is_manifest(text) {
                    (seq![Tier::Primary], last)
                } else {
                    match replies(Tier::Secondary) {
                        Err(StoreError::Other(fault)) => (
                            seq![Tier::Secondary],
                            Err(StoreError::Other(fault)),
                        ),
                        _ => (seq![Tier::Secondary, Tier::Primary], last),
                    }
                },
            )
        }),
{
    reveal_with_fuel(delete_trace, 3);
    law_manifests_alone_are_unmirrored(text);
    assert(seq![Tier::Primary] + Seq::<Tier>::empty() =~= seq![Tier::Primary]);
    assert(seq![Tier::Secondary] + Seq::<Tier>::empty() =~= seq![Tier::Secondary]);
    assert(seq![Tier::Secondary] + (seq![Tier::Primary] + Seq::<Tier>::empty()) =~= seq![
        Tier::Secondary,
        Tier::Primary,
    ]);
}

/// The stores that are asked, in turn, to begin a write in parts, and the result.
pub open spec fn multipart_trace<U, E>(
    progress: MultipartProgress<U, E>,
    replies: spec_fn(Tier) -> Result<U, E>,
    fuel: nat,
) -> Option<(Seq<Tier>, Result<BegunUpload<U>, E>)>
    decreases fuel,
{
    match progress {
        Progress::Finish(result) => Some((Seq::empty(), result)),
        Progress::Ask(begin, tier) => if fuel == 0 {
            None
        } else {
            match multipart_trace(begin.step(replies(tier)), replies, (fuel - 1) as nat) {
                None => None,
                Some((calls, result)) => Some((seq![tier] + calls, result)),
            }
        },
    }
}

/// A write in parts begins in the secondary store and then in the primary one, and goes on in both.
/// Where either fails, it does not begin. That of a manifest begins in the primary store alone, and
/// goes on there.
pub proof fn law_multipart_in_both<U, E>(text: Seq<char>, replies: spec_fn(Tier) -> Result<U, E>)
    ensures
        multipart_trace(multipart_begun(text), replies, 2) == Some(
            if is_manifest(text) {
                (
                    seq![Tier::Primary],
                    match replies(Tier::Primary) {
                        Ok(upload) => Ok(BegunUpload::Single(upload)),
                        Err(fault) => Err(fault),
                    },
                )
            } else {
                match (replies(Tier::Secondary), replies(Tier::Primary)) {
                    (Err(fault), _) => (seq![Tier::Secondary], Err(fault)),
                    (Ok(_), Err(fault)) => (seq![Tier::Secondary, Tier::Primary], Err(fault)),
                    (Ok(secondary), Ok(primary)) => (
                        seq![Tier::Secondary, Tier::Primary],
                        Ok(BegunUpload::Mirrored(MirroringUpload { primary, secondary })),
                    ),
                }
            },
        ),
{
    reveal_with_fuel(multipart_trace, 3);
    law_manifests_alone_are_unmirrored(text);
    assert(seq![Tier::Primary] + Seq::<Tier>::empty() =~= seq![Tier::Primary]);
    assert(seq![Tier::Secondary] + Seq::<Tier>::empty() =~= seq![Tier::Secondary]);
    assert(seq![Tier::Secondary] + (seq![Tier::Primary] + Seq::<Tier>::empty()) =~= seq![
        Tier::Secondary,
        Tier::Primary,
    ]);
}

/// The objects of the two stores underneath a mirror, by location.
#[verifier::ext_equal]
pub struct MirrorWorld<P> {
    pub primary: Map<Seq<char>, P>,
    pub secondary: Map<Seq<char>, P>,
}

impl<P> MirrorWorld<P> {
    /// The objects of the store.
    pub open spec fn at(self, tier: Tier) -> Map<Seq<char>, P> {
        match tier {
            Tier::Primary => self.primary,
            Tier::Secondary => self.secondary,
        }
    }

    /// The world with other objects in the store.
    pub open spec fn with(self, tier: Tier, objects: Map<Seq<char>, P>) -> Self {
        match tier {
            Tier::Primary => MirrorWorld { primary: objects, ..self },
            Tier::Secondary => MirrorWorld { secondary: objects, ..self },
        }
    }

    /// The secondary store holds what the primary one does, without the manifests.
    pub open spec fn in_step(self) -> bool {
        forall|text: Seq<char>|
            if is_manifest(text) {
                !(#[trigger] self.secondary.contains_key(text))
            } else {
                agree_at(self.primary, self.secondary, text)
            }
    }
}

/// Runs the write until it is over, for as many calls as there is fuel. The stores carry the
/// request out.
pub open spec fn mirror_run<P, E>(
    progress: WriteProgress<Option<P>, StoreError<E>>,
    world: MirrorWorld<P>,
    request: Request<Seq<char>>,
    content: P,
    missing: E,
    fuel: nat,
) -> Option<(MirrorWorld<P>, Result<Option<P>, StoreError<E>>)>
    decreases fuel,
{
    match progress {
        Progress::Finish(result) => Some((world, result)),
        Progress::Ask(write, tier) => if fuel == 0 {
            None
        } else {
            let (objects, reply) = performed(world.at(tier), request, content, missing);
            let result = match reply {
                Reply::Answer(answer) => Ok(answer),
                Reply::Fault(fault) => Err(fault),
                _ => Ok(None),
            };
            mirror_run(
                write.step(result),
                world.with(tier, objects),
                request,
                content,
                missing,
                (fuel - 1) as nat,
            )
        },
    }
}

/// A write leaves the object in both stores; a manifest in the primary store alone. The stores
/// stay in step.
pub proof fn law_mirrored_put<P, E>(
    world: MirrorWorld<P>,
    text: Seq<char>,
    content: P,
    missing: E,
) -> (after: MirrorWorld<P>)
    ensures
        mirror_run(
            write_at::<Option<P>, StoreError<E>>(first_tier(is_primary_only(text))),
            world,
            Request::Put(text),
            content,
            missing,
            2,
        ) == Some((after, Ok::<Option<P>, StoreError<E>>(None))),
        after.primary == world.primary.insert(text, content),
        after.secondary == (if is_manifest(text) {
            world.secondary
        } else {
            world.secondary.insert(text, content)
        }),
        world.in_step() ==> after.in_step(),
{
    reveal_with_fuel(mirror_run, 3);
    law_manifests_alone_are_unmirrored(text);
    let after = MirrorWorld {
        primary: world.primary.insert(text, content),
        secondary: if is_manifest(text) {
            world.secondary
        } else {
            world.secondary.insert(text, content)
        },
    };
    if world.in_step() {
        lemma_in_step(world, after, text);
    }
    after
}

/// A write in parts that is completed leaves the object in both stores; that of a manifest, which
/// goes on in the primary store alone, leaves it there alone. The stores stay in step. Writing the
/// parts leaves no object before.
pub proof fn law_mirrored_multipart<P, E>(
    world: MirrorWorld<P>,
    text: Seq<char>,
    content: P,
    missing: E,
) -> (after: MirrorWorld<P>)
    requires
        world.in_step(),
    ensures
        mirror_run(
            write_at::<Option<P>, StoreError<E>>(Tier::Secondary),
            world,
            Request::PutMultipart(text),
            content,
            missing,
            2,
        ) == Some((world, Ok::<Option<P>, StoreError<E>>(None))),
        mirror_run(
            write_at::<Option<P>, StoreError<E>>(first_tier(is_primary_only(text))),
            world,
            Request::Complete(text),
            content,
            missing,
            2,
        ) == Some((after, Ok::<Option<P>, StoreError<E>>(None))),
        after.primary == world.primary.insert(text, content),
        after.secondary == (if is_manifest(text) {
            world.secondary
        } else {
            world.secondary.insert(text, content)
        }),
        after.in_step(),
{
    reveal_with_fuel(mirror_run, 3);
    law_manifests_alone_are_unmirrored(text);
    let after = MirrorWorld {
        primary: world.primary.insert(text, content),
        secondary: if is_manifest(text) {
            world.secondary
        } else {
            world.secondary.insert(text, content)
        },
    };
    lemma_in_step(world, after, text);
    after
}

/// A copy leaves the object at the target in both stores; a copy to a manifest in the primary
/// store alone. The stores stay in step.
pub proof fn law_mirrored_copy<P, E>(
    world: MirrorWorld<P>,
    from: Seq<char>,
    to: Seq<char>,
    content: P,
    missing: E,
) -> (after: MirrorWorld<P>)
    requires
        world.in_step(),
        world.primary.contains_key(from),
        is_manifest(from) ==> is_manifest(to),
    ensures
        mirror_run(
            write_at::<Option<P>, StoreError<E>>(first_tier(is_primary_only(to))),
            world,
            Request::Copy { from, to },
            content,
            missing,
            2,
        ) == Some((after, Ok::<Option<P>, StoreError<E>>(None))),
        after.primary == world.primary.insert(to, world.primary[from]),
        after.secondary == (if is_manifest(to) {
            world.secondary
        } else {
            world.secondary.insert(to, world.primary[from])
        }),
        after.in_step(),
{
    reveal_with_fuel(mirror_run, 3);
    law_manifests_alone_are_unmirrored(to);
    law_manifests_alone_are_unmirrored(from);
    let after = MirrorWorld {
        primary: world.primary.insert(to, world.primary[from]),
        secondary: if is_manifest(to) {
            world.secondary
        } else {
            world.secondary.insert(to, world.primary[from])
        },
    };
    assert(world.secondary.contains_key(from) || is_manifest(from));
    lemma_in_step(world, after, to);
    after
}

/// A copy of an object that the primary store lacks fails and changes nothing. So does a copy of a
/// manifest to a location that is mirrored: the secondary store lacks it.
pub proof fn law_copy_refused<P, E>(
    world: MirrorWorld<P>,
    from: Seq<char>,
    to: Seq<char>,
    content: P,
    missing: E,
)
    requires
        world.in_step(),
        !world.primary.contains_key(from) || (is_manifest(from) && !is_manifest(to)),
    ensures
        mirror_run(
            write_at::<Option<P>, StoreError<E>>(first_tier(is_primary_only(to))),
            world,
            Request::Copy { from, to },
            content,
            missing,
            2,
        ) == Some((world, Err::<Option<P>, StoreError<E>>(StoreError::NotFound(missing)))),
{
    reveal_with_fuel(mirror_run, 3);
    law_manifests_alone_are_unmirrored(to);
    law_manifests_alone_are_unmirrored(from);
    assert(world.secondary.contains_key(from) ==> !is_manifest(from));
}

proof fn lemma_in_step<P>(before: MirrorWorld<P>, after: MirrorWorld<P>, changed: Seq<char>)
    requires
        before.in_step(),
        forall|text: Seq<char>|
            text != changed ==> agree_at(before.primary, after.primary, text) && #[trigger] agree_at(
                before.secondary,
                after.secondary,
                text,
            ),
        if is_manifest(changed) {
            !after.secondary.contains_key(changed)
        } else {
            agree_at(after.primary, after.secondary, changed)
        },
    ensures
        after.in_step(),
{
    assert forall|text: Seq<char>|
        if is_manifest(text) {
            !(#[trigger] after.secondary.contains_key(text))
        } else {
            agree_at(after.primary, after.secondary, text)
        } by {
        if text != changed {
            assert(agree_at(before.secondary, after.secondary, text));
            assert(before.secondary.contains_key(text) || !before.secondary.contains_key(text));
        }
    }
}

/// Runs the deletion until it is over, for as many calls as there is fuel. The stores carry it out.
pub open spec fn mirror_delete_run<P, E>(
    progress: DeleteProgress<Seq<char>, E>,
    world: MirrorWorld<P>,
    missing: E,
    fuel: nat,
) -> Option<(MirrorWorld<P>, Result<Seq<char>, StoreError<E>>)>
    decreases fuel,
{
    match progress {
        Progress::Finish(result) => Some((world, result)),
        Progress::Ask(delete, tier) => if fuel == 0 {
            None
        } else {
            let reply = if world.at(tier).contains_key(delete.location) {
                Ok(())
            } else {
                Err(StoreError::NotFound(missing))
            };
            mirror_delete_run(
                delete.step(reply),
                world.with(tier, world.at(tier).remove(delete.location)),
                missing,
                (fuel - 1) as nat,
            )
        },
    }
}

/// After a deletion neither store holds the object, and the stores stay in step. Where the primary
/// store held none, that is reported.
pub proof fn law_mirrored_delete<P, E>(world: MirrorWorld<P>, text: Seq<char>, missing: E) -> (after:
    MirrorWorld<P>)
    requires
        world.in_step(),
    ensures
        mirror_delete_run(delete_begun::<E>(Ok(text)), world, missing, 2) == Some(
            (
                after,
                if world.primary.contains_key(text) {
                    Ok::<Seq<char>, StoreError<E>>(text)
                } else {
                    Err(StoreError::NotFound(missing))
                },
            ),
        ),
        after.primary == world.primary.remove(text),
        after.secondary == world.secondary.remove(text),
        after.in_step(),
{
    reveal_with_fuel(mirror_delete_run, 3);
    law_manifests_alone_are_unmirrored(text);
    let after = MirrorWorld {
        primary: world.primary.remove(text),
        secondary: world.secondary.remove(text),
    };
    assert(is_manifest(text) ==> !world.secondary.contains_key(text));
    assert(is_manifest(text) ==> world.secondary.remove(text) =~= world.secondary);
    lemma_in_step(world, after, text);
    after
}

/// A write asks the one store, then the other where the first one was the secondary and did not
/// fail, and is over with the last reply.
pub proof fn law_write_moves<A, E>(tier: Tier, reply: Result<A, E>)
    ensures
        write_at::<A, E>(tier) == WriteProgress::<A, E>::Ask(MirrorWrite { tier }, tier),
        first_tier(true) == Tier::Primary,
        first_tier(false) == Tier::Secondary,
        (MirrorWrite { tier }).step(reply) == (match (tier, reply) {
            (Tier::Secondary, Ok(_)) => WriteProgress::<A, E>::Ask(
                MirrorWrite { tier: Tier::Primary },
                Tier::Primary,
            ),
            (Tier::Secondary, Err(fault)) => WriteProgress::<A, E>::Finish(Err(fault)),
            (Tier::Primary, _) => WriteProgress::<A, E>::Finish(reply),
        }),
{
}

/// A path that does not end in `.manifest` is asked of the secondary store first, whether it is
/// written, written in parts, copied to or deleted; one that does is asked of the primary store and
/// never of the secondary one.
pub proof fn law_mirrored_by_name<A, U, E>(path: Seq<char>)
    ensures
        write_at::<A, E>(first_tier(is_primary_only(path))) == WriteProgress::<A, E>::Ask(
            MirrorWrite { tier: mirrored_from(path) },
            mirrored_from(path),
        ),
        delete_begun::<E>(Ok(path)) == DeleteProgress::<Seq<char>, E>::Ask(
            MirrorDelete { location: path, tier: mirrored_from(path) },
            mirrored_from(path),
        ),
        multipart_begun::<U, E>(path) == MultipartProgress::<U, E>::Ask(
            if is_manifest(path) {
                MirrorMultipart::PrimaryOnly
            } else {
                MirrorMultipart::Secondary
            },
            mirrored_from(path),
        ),
{
    law_manifests_alone_are_unmirrored(path);
}

/// The store that a path is written to first.
pub open spec fn mirrored_from(path: Seq<char>) -> Tier {
    if is_manifest(path) {
        Tier::Primary
    } else {
        Tier::Secondary
    }
}

/// A deletion goes on to the primary store where the secondary one deleted the object or had none,
/// and is over with the primary store's reply. Every other failure is handed on, and so is one of
/// the stream.
pub proof fn law_delete_moves<E>(text: Seq<char>, fault: E, other: StoreError<E>)
    ensures
        (MirrorDelete { location: text, tier: Tier::Secondary }).step::<E>(Ok(()))
            == DeleteProgress::<Seq<char>, E>::Ask(
            MirrorDelete { location: text, tier: Tier::Primary },
            Tier::Primary,
        ),
        (MirrorDelete { location: text, tier: Tier::Secondary }).step::<E>(
            Err(StoreError::NotFound(fault)),
        ) == DeleteProgress::<Seq<char>, E>::Ask(
            MirrorDelete { location: text, tier: Tier::Primary },
            Tier::Primary,
        ),
        (MirrorDelete { location: text, tier: Tier::Secondary }).step::<E>(
            Err(StoreError::Other(fault)),
        ) == DeleteProgress::<Seq<char>, E>::Finish(Err(StoreError::Other(fault))),
        (MirrorDelete { location: text, tier: Tier::Primary }).step::<E>(Ok(()))
            == DeleteProgress::<Seq<char>, E>::Finish(Ok(text)),
        (MirrorDelete { location: text, tier: Tier::Primary }).step::<E>(Err(other))
            == DeleteProgress::<Seq<char>, E>::Finish(Err(other)),
        delete_begun::<E>(Err(other)) == DeleteProgress::<Seq<char>, E>::Finish(Err(other)),
{
}

} // verus!
