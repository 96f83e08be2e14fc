//! What reads and writes through the local cache amount to.
//!
//! The laws speak of operations that are not interleaved with others.

use crate::laws::moves::reads;
use crate::laws::world::{consistent, visible, World};
use crate::local_cache::{deleted, CacheView};
use crate::operation::{begun, Operation, OperationProgress, Request, Stage};
use crate::protocol::{changes, Call, Error, Progress, Reply, Side, StoreError};
use crate::removal::{removal_begun, Removal, RemovalProgress};
use vstd::prelude::*;

verus! {

/// How a store answers the caller's own request: the objects it holds afterwards, and its reply.
/// A read is answered with the object, and so is a request for its metadata, which are those of the
/// object that the store holds.
pub open spec fn performed<P, E>(
    objects: Map<Seq<char>, P>,
    request: Request<Seq<char>>,
    content: P,
    missing: E,
) -> (Map<Seq<char>, P>, Reply<P, Option<P>, E>) {
    let lacking = reads(request) matches Some(source) && !objects.contains_key(source);
    match request {
        Request::Put(location) => (objects.insert(location, content), Reply::Answer(None)),
        Request::PutMultipart(_) => (objects, Reply::Answer(None)),
        Request::Complete(location) => (objects.insert(location, content), Reply::Answer(None)),
        Request::Get { location, head: _ } => if lacking {
            (objects, Reply::Fault(StoreError::NotFound(missing)))
        } else {
            (objects, Reply::Answer(Some(objects[location])))
        },
        Request::Copy { from, to } => if lacking {
            (objects, Reply::Fault(StoreError::NotFound(missing)))
        } else {
            (objects.insert(to, objects[from]), Reply::Answer(None))
        },
        Request::Rename { from, to } => if lacking {
            (objects, Reply::Fault(StoreError::NotFound(missing)))
        } else {
            (objects.insert(to, objects[from]).remove(from), Reply::Answer(None))
        },
    }
}

/// How the stores answer a call of an operation. `content` is what the caller writes, and
/// `missing` what a store reports of an object that it lacks.
pub open spec fn answered<P, E>(
    world: World<P>,
    request: Request<Seq<char>>,
    content: P,
    missing: E,
    call: Call<Seq<char>, P>,
) -> (World<P>, Reply<P, Option<P>, E>) {
    match call {
        Call::Forward(side) => {
            let (objects, reply) = performed(world.on(side), request, content, missing);
            (world.with(side, objects), reply)
        },
        Call::Fetch(side, text) => if world.on(side).contains_key(text) {
            (world, Reply::Payload(world.on(side)[text]))
        } else {
            (world, Reply::Fault(StoreError::NotFound(missing)))
        },
        Call::Store(side, text, payload) => (
            world.with(side, world.on(side).insert(text, payload)),
            Reply::Done,
        ),
        Call::Probe(side, text) => if world.on(side).contains_key(text) {
            (world, Reply::Done)
        } else {
            (world, Reply::Fault(StoreError::NotFound(missing)))
        },
        Call::Delete(side, text) => (
            world.with(side, world.on(side).remove(text)),
            Reply::Done,
        ),
        Call::List(_, _) => (world, Reply::Done),
    }
}

/// What is left of an operation that ran: the state of the cache, the stores and the result.
#[verifier::ext_equal]
pub struct Ended<S, P, E> {
    pub state: CacheView<S>,
    pub world: World<P>,
    pub result: Result<Option<P>, Error<Seq<char>, E>>,
}

/// Runs the operation until it is over, for as many calls as there is fuel.
pub open spec fn run<S, P, E>(
    progress: OperationProgress<Seq<char>, P, Option<P>, E>,
    state: CacheView<S>,
    world: World<P>,
    content: P,
    missing: E,
    fuel: nat,
) -> Option<Ended<S, P, E>>
    decreases fuel,
{
    match progress {
        Progress::Finish(result) => Some(Ended { state, world, result }),
        Progress::Ask(operation, call) => if fuel == 0 {
            None
        } else {
            let (next_world, reply) = answered(world, operation.request, content, missing, call);
            let (next_state, next) = operation.step(state, reply);
            run(next, next_state, next_world, content, missing, (fuel - 1) as nat)
        },
    }
}

/// The operation ends so.
pub open spec fn ends<S, P, E>(
    progress: OperationProgress<Seq<char>, P, Option<P>, E>,
    state: CacheView<S>,
    world: World<P>,
    content: P,
    missing: E,
    ended: Ended<S, P, E>,
) -> bool {
    exists|fuel: nat| #[trigger]
        run(progress, state, world, content, missing, fuel) == Some(ended)
}

proof fn lemma_more_fuel<S, P, E>(
    progress: OperationProgress<Seq<char>, P, Option<P>, E>,
    state: CacheView<S>,
    world: World<P>,
    content: P,
    missing: E,
    fuel: nat,
    more: nat,
)
    requires
        run(progress, state, world, content, missing, fuel) is Some,
        fuel <= more,
    ensures
        run(progress, state, world, content, missing, more) == run(
            progress,
            state,
            world,
            content,
            missing,
            fuel,
        ),
    decreases fuel,
{
    if let Progress::Ask(operation, call) = progress {
        let (next_world, reply) = answered(world, operation.request, content, missing, call);
        let (next_state, next) = operation.step(state, reply);
        lemma_more_fuel(
            next,
            next_state,
            next_world,
            content,
            missing,
            (fuel - 1) as nat,
            (more - 1) as nat,
        );
    }
}

/// An operation ends in one way only.
pub proof fn law_operation_ends_one_way<S, P, E>(
    progress: OperationProgress<Seq<char>, P, Option<P>, E>,
    state: CacheView<S>,
    world: World<P>,
    content: P,
    missing: E,
    a: Ended<S, P, E>,
    b: Ended<S, P, E>,
)
    requires
        ends(progress, state, world, content, missing, a),
        ends(progress, state, world, content, missing, b),
    ensures
        a == b,
{
    let fuel_a = choose|fuel: nat| #[trigger]
        run(progress, state, world, content, missing, fuel) == Some(a);
    let fuel_b = choose|fuel: nat| #[trigger]
        run(progress, state, world, content, missing, fuel) == Some(b);
    if fuel_a <= fuel_b {
        lemma_more_fuel(progress, state, world, content, missing, fuel_a, fuel_b);
    } else {
        lemma_more_fuel(progress, state, world, content, missing, fuel_b, fuel_a);
    }
}

/// The world once the object to be read is in the cache.
pub open spec fn populated<P>(world: World<P>, text: Seq<char>) -> World<P> {
    if world.cache.contains_key(text) {
        world
    } else {
        World { cache: world.cache.insert(text, world.remote[text]), ..world }
    }
}

/// What an operation that reads an object which is not visible fails with: the local deletion, or
/// what the backing store reports.
pub open spec fn unseen<S, E>(state: CacheView<S>, text: Seq<char>, missing: E) -> Error<
    Seq<char>,
    E,
> {
    if state.deleted.contains_key(text) {
        deleted(text)
    } else {
        Error::Store(StoreError::NotFound(missing))
    }
}

/// The first move of an operation that is not refused.
spec fn opening<P, E>(request: Request<Seq<char>>) -> OperationProgress<
    Seq<char>,
    P,
    Option<P>,
    E,
> {
    Progress::Ask(Operation { request, stage: Stage::First }, request.first_call())
}

/// The cache carries the request out, and the change is recorded.
pub open spec fn carried_out<S, P, E>(
    request: Request<Seq<char>>,
    state: CacheView<S>,
    world: World<P>,
    content: P,
    missing: E,
) -> Ended<S, P, E> {
    let (cache, reply) = performed(world.cache, request, content, missing);
    Ended {
        state: request.recorded(state),
        world: World { cache, ..world },
        result: match reply {
            Reply::Answer(answer) => Ok(answer),
            _ => Ok(None),
        },
    }
}

proof fn lemma_write_runs<S, P, E>(
    request: Request<Seq<char>>,
    state: CacheView<S>,
    world: World<P>,
    content: P,
    missing: E,
)
    requires
        !request.is_read(),
    ensures
        ends(
            opening(request),
            state,
            world,
            content,
            missing,
            carried_out(request, state, world, content, missing),
        ),
{
    reveal_with_fuel(run, 5);
    assert(run(opening(request), state, world, content, missing, 4) == Some(
        carried_out(request, state, world, content, missing),
    ));
}

proof fn lemma_read_runs<S, P, E>(
    request: Request<Seq<char>>,
    state: CacheView<S>,
    world: World<P>,
    content: P,
    missing: E,
)
    requires
        request.is_read(),
        visible(state, world).contains_key(request.source()),
        !(request matches Request::Get { head: true, .. }),
    ensures
        ends(
            opening(request),
            state,
            world,
            content,
            missing,
            carried_out(request, state, populated(world, request.source()), content, missing),
        ),
{
    reveal_with_fuel(run, 5);
    assert(run(opening(request), state, world, content, missing, 4) == Some(
        carried_out(request, state, populated(world, request.source()), content, missing),
    ));
}

proof fn lemma_head_runs<S, P, E>(
    location: Seq<char>,
    state: CacheView<S>,
    world: World<P>,
    content: P,
    missing: E,
)
    requires
        visible(state, world).contains_key(location),
    ensures
        ends(
            opening(Request::Get { location, head: true }),
            state,
            world,
            content,
            missing,
            (Ended { state, world, result: Ok(Some(visible(state, world)[location])) }),
        ),
{
    reveal_with_fuel(run, 5);
    let request = Request::Get { location, head: true };
    assert(run(opening(request), state, world, content, missing, 4) == Some(
        Ended::<S, P, E> { state, world, result: Ok(Some(visible(state, world)[location])) },
    ));
}

/// A read returns what is visible at the location: what was written locally, or else what the
/// backing store holds. An object that only the backing store holds is in the cache afterwards.
/// Reading changes nothing that is visible, records no change and leaves the backing store alone.
pub proof fn law_read<S, P, E>(
    state: CacheView<S>,
    world: World<P>,
    location: Seq<char>,
    content: P,
    missing: E,
)
    requires
        !state.closed,
        visible(state, world).contains_key(location),
    ensures
        ends(
            begun(Request::Get { location, head: false }, state),
            state,
            world,
            content,
            missing,
            (Ended {
                state,
                world: populated(world, location),
                result: Ok(Some(visible(state, world)[location])),
            }),
        ),
        populated(world, location).cache.contains_key(location),
        populated(world, location).remote == world.remote,
        visible(state, populated(world, location)) == visible(state, world),
        consistent(state, world) ==> consistent(state, populated(world, location)),
{
    lemma_read_runs(Request::Get { location, head: false }, state, world, content, missing);
}

/// A request for metadata alone is answered of the object that is visible, which is that of the cache
/// wherever the cache holds one, and changes nothing.
pub proof fn law_head<S, P, E>(
    state: CacheView<S>,
    world: World<P>,
    location: Seq<char>,
    content: P,
    missing: E,
)
    requires
        !state.closed,
        visible(state, world).contains_key(location),
    ensures
        ends(
            begun(Request::Get { location, head: true }, state),
            state,
            world,
            content,
            missing,
            (Ended { state, world, result: Ok(Some(visible(state, world)[location])) }),
        ),
        world.cache.contains_key(location) ==> visible(state, world)[location]
            == world.cache[location],
{
    lemma_head_runs(location, state, world, content, missing);
}

/// An operation that reads an object which is not visible fails and changes nothing. A location
/// that was deleted locally counts as deleted, whatever the two stores hold there.
pub proof fn law_unseen<S, P, E>(
    request: Request<Seq<char>>,
    state: CacheView<S>,
    world: World<P>,
    content: P,
    missing: E,
)
    requires
        !state.closed,
        request.is_read(),
        !visible(state, world).contains_key(request.source()),
    ensures
        ends(
            begun(request, state),
            state,
            world,
            content,
            missing,
            (Ended { state, world, result: Err(unseen(state, request.source(), missing)) }),
        ),
{
    reveal_with_fuel(run, 5);
    assert(run(begun(request, state), state, world, content, missing, 4) == Some(
        Ended::<S, P, E> { state, world, result: Err(unseen(state, request.source(), missing)) },
    ));
}

/// A location that was deleted locally is refused to every operation that reads it, at once and
/// without a call, until the deletion is committed or the location is written again.
pub proof fn law_deleted_is_refused<S, P, A, E>(state: CacheView<S>, request: Request<Seq<char>>)
    requires
        !state.closed,
        request.is_read(),
        state.deleted.contains_key(request.source()),
    ensures
        begun::<S, P, A, E>(request, state) == OperationProgress::<Seq<char>, P, A, E>::Finish(
            Err(deleted(request.source())),
        ),
{
}

/// The replies to the calls of an operation, one after another: the state, and the next move.
pub open spec fn replayed<S, P, A, E>(
    progress: OperationProgress<Seq<char>, P, A, E>,
    state: CacheView<S>,
    replies: Seq<Reply<P, A, E>>,
) -> (CacheView<S>, OperationProgress<Seq<char>, P, A, E>)
    decreases replies.len(),
{
    match progress {
        Progress::Finish(_) => (state, progress),
        Progress::Ask(operation, _) => if replies.len() == 0 {
            (state, progress)
        } else {
            let (next_state, next) = operation.step(state, replies[0]);
            replayed(next, next_state, replies.drop_first())
        },
    }
}

/// A read does not depend on room in the cache: where the object that was read from the backing
/// store cannot be written into the cache, for whatever reason, the caller's request is made of the
/// backing store, and its outcome is that of the read. So the read returns what is visible.
pub proof fn law_read_without_room<S, P, E>(
    state: CacheView<S>,
    world: World<P>,
    location: Seq<char>,
    content: P,
    missing: E,
    full: StoreError<E>,
)
    requires
        !state.closed,
        visible(state, world).contains_key(location),
        !world.cache.contains_key(location),
    ensures
        ({
            let request = Request::Get { location, head: false };
            let first = begun::<S, P, Option<P>, E>(request, state);
            let replies = seq![
                performed(world.cache, request, content, missing).1,
                Reply::Payload(world.remote[location]),
                Reply::Fault(full),
            ];
            let last = performed(world.remote, request, content, missing).1;
            &&& replayed(first, state, replies) == (
                state,
                OperationProgress::<Seq<char>, P, Option<P>, E>::Ask(
                    Operation { request, stage: Stage::Last },
                    Call::Forward(Side::Remote),
                ),
            )
            &&& replayed(first, state, replies.push(last)) == (
                state,
                OperationProgress::<Seq<char>, P, Option<P>, E>::Finish(
                    Ok(Some(visible(state, world)[location])),
                ),
            )
        }),
{
    reveal_with_fuel(replayed, 5);
    let request = Request::Get { location, head: false };
    let replies = seq![
        performed(world.cache, request, content, missing).1,
        Reply::Payload(world.remote[location]),
        Reply::Fault(full),
    ];
    let last = performed(world.remote, request, content, missing).1;
    let all = replies.push(last);
    assert(replies.drop_first() =~= seq![replies[1], replies[2]]);
    assert(replies.drop_first().drop_first() =~= seq![replies[2]]);
    assert(replies.drop_first().drop_first().drop_first() =~= Seq::empty());
    assert(all.drop_first() =~= seq![all[1], all[2], all[3]]);
    assert(all.drop_first().drop_first() =~= seq![all[2], all[3]]);
    assert(all.drop_first().drop_first().drop_first() =~= seq![all[3]]);
    assert(all.drop_first().drop_first().drop_first().drop_first() =~= Seq::empty());
}

/// After a write, exactly the written object is visible at its location, and it is marked for the
/// next commit. The backing store is left alone.
pub proof fn law_write<S, P, E>(
    state: CacheView<S>,
    world: World<P>,
    location: Seq<char>,
    content: P,
    missing: E,
) -> (ended: Ended<S, P, E>)
    requires
        !state.closed,
    ensures
        ends(begun(Request::Put(location), state), state, world, content, missing, ended),
        ended.result == Ok::<Option<P>, Error<Seq<char>, E>>(None),
        ended.state == state.marked_dirty(location),
        ended.world == (World { cache: world.cache.insert(location, content), ..world }),
        visible(ended.state, ended.world) == visible(state, world).insert(location, content),
        consistent(state, world) ==> consistent(ended.state, ended.world),
{
    let request = Request::Put(location);
    lemma_write_runs(request, state, world, content, missing);
    carried_out(request, state, world, content, missing)
}

/// A read that follows a write returns what was written.
pub proof fn law_read_after_write<S, P, E>(
    state: CacheView<S>,
    world: World<P>,
    location: Seq<char>,
    content: P,
    missing: E,
) -> (written: Ended<S, P, E>)
    requires
        !state.closed,
    ensures
        ends(begun(Request::Put(location), state), state, world, content, missing, written),
        ends(
            begun(Request::Get { location, head: false }, written.state),
            written.state,
            written.world,
            content,
            missing,
            (Ended { result: Ok(Some(content)), ..written }),
        ),
{
    let written = law_write(state, world, location, content, missing);
    law_read(written.state, written.world, location, content, missing);
    written
}

/// A write in parts becomes visible when it is completed, and not before.
pub proof fn law_write_in_parts<S, P, E>(
    state: CacheView<S>,
    world: World<P>,
    location: Seq<char>,
    content: P,
    missing: E,
) -> (ended: Ended<S, P, E>)
    requires
        !state.closed,
    ensures
        ends(
            begun(Request::PutMultipart(location), state),
            state,
            world,
            content,
            missing,
            (Ended { state, world, result: Ok(None) }),
        ),
        ends(begun(Request::Complete(location), state), state, world, content, missing, ended),
        ended.result == Ok::<Option<P>, Error<Seq<char>, E>>(None),
        ended.state == state.marked_dirty(location),
        ended.world == (World { cache: world.cache.insert(location, content), ..world }),
        visible(ended.state, ended.world) == visible(state, world).insert(location, content),
        consistent(state, world) ==> consistent(ended.state, ended.world),
{
    lemma_write_runs(Request::PutMultipart(location), state, world, content, missing);
    lemma_write_runs(Request::Complete(location), state, world, content, missing);
    carried_out(Request::Complete(location), state, world, content, missing)
}

/// After a copy, what was visible at the source is visible at the target too. The backing store is
/// left alone.
pub proof fn law_copy<S, P, E>(
    state: CacheView<S>,
    world: World<P>,
    from: Seq<char>,
    to: Seq<char>,
    content: P,
    missing: E,
) -> (ended: Ended<S, P, E>)
    requires
        !state.closed,
        visible(state, world).contains_key(from),
    ensures
        ends(begun(Request::Copy { from, to }, state), state, world, content, missing, ended),
        ended.result == Ok::<Option<P>, Error<Seq<char>, E>>(None),
        ended.state == state.marked_dirty(to),
        ended.world.remote == world.remote,
        visible(ended.state, ended.world) == visible(state, world).insert(
            to,
            visible(state, world)[from],
        ),
        consistent(state, world) ==> consistent(ended.state, ended.world),
{
    let request = Request::Copy { from, to };
    lemma_read_runs(request, state, world, content, missing);
    carried_out(request, state, populated(world, from), content, missing)
}

/// After a move, what was visible at the source is visible at the target alone. The backing store
/// is left alone.
pub proof fn law_rename<S, P, E>(
    state: CacheView<S>,
    world: World<P>,
    from: Seq<char>,
    to: Seq<char>,
    content: P,
    missing: E,
) -> (ended: Ended<S, P, E>)
    requires
        !state.closed,
        visible(state, world).contains_key(from),
        from != to,
    ensures
        ends(begun(Request::Rename { from, to }, state), state, world, content, missing, ended),
        ended.result == Ok::<Option<P>, Error<Seq<char>, E>>(None),
        ended.state == state.marked_deleted(from).marked_dirty(to),
        ended.world.remote == world.remote,
        visible(ended.state, ended.world) == visible(state, world).insert(
            to,
            visible(state, world)[from],
        ).remove(from),
        consistent(state, world) ==> consistent(ended.state, ended.world),
{
    let request = Request::Rename { from, to };
    lemma_read_runs(request, state, world, content, missing);
    carried_out(request, state, populated(world, from), content, missing)
}

/// After a deletion, nothing is visible at the location, and the location is marked for the next
/// commit. The backing store is left alone. It makes no difference whether the cache held an
/// object there, nor whether it reports that it did not.
pub proof fn law_delete<S, P, E>(
    state: CacheView<S>,
    world: World<P>,
    location: Seq<char>,
    reply: Result<(), StoreError<E>>,
)
    requires
        !(reply matches Err(StoreError::Other(_))),
    ensures
        removal_begun::<E>(Ok(location)) == RemovalProgress::<Seq<char>, E>::Ask(
            Removal { location },
            Call::Delete(Side::Cache, location),
        ),
        (Removal { location }).step(state, reply) == (
            state.marked_deleted(location),
            Ok::<Seq<char>, Error<Seq<char>, E>>(location),
        ),
        visible(
            state.marked_deleted(location),
            World { cache: world.cache.remove(location), ..world },
        ) == visible(state, world).remove(location),
        consistent(state, world) ==> consistent(
            state.marked_deleted(location),
            World { cache: world.cache.remove(location), ..world },
        ),
{
}

/// A read that follows a deletion finds the object deleted, whatever the two stores hold by then.
pub proof fn law_read_after_delete<S, P, E>(
    state: CacheView<S>,
    world: World<P>,
    location: Seq<char>,
    head: bool,
    content: P,
    missing: E,
)
    requires
        !state.closed,
    ensures
        ({
            let after = state.marked_deleted(location);
            &&& !visible(after, world).contains_key(location)
            &&& ends(
                begun(Request::Get { location, head }, after),
                after,
                world,
                content,
                missing,
                (Ended { state: after, world, result: Err(deleted(location)) }),
            )
        }),
{
    let after = state.marked_deleted(location);
    law_unseen(Request::Get { location, head }, after, world, content, missing);
}

/// Every operation on single objects that is not refused turns to the cache first.
pub proof fn law_cache_first<S, P, A, E>(state: CacheView<S>, request: Request<Seq<char>>)
    requires
        !state.closed,
        request.is_read() ==> !state.deleted.contains_key(request.source()),
    ensures
        begun::<S, P, A, E>(request, state) matches Progress::Ask(_, call) && (call == Call::<
            Seq<char>,
            P,
        >::Forward(Side::Cache) || call == Call::<Seq<char>, P>::Probe(
            Side::Cache,
            request.source(),
        )),
{
}

/// Before the next commit no operation on single objects changes the backing store: of a read it
/// is asked for the object or its metadata, and of nothing else.
pub proof fn law_operations_stay_local<S, P, A, E>(
    operation: Operation<Seq<char>>,
    state: CacheView<S>,
    reply: Reply<P, A, E>,
)
    ensures
        local_move(operation.request, begun::<S, P, A, E>(operation.request, state)),
        local_move(operation.request, operation.step(state, reply).1),
{
}

/// The move makes no call that could change the backing store.
pub open spec fn local_move<P, A, E>(
    request: Request<Seq<char>>,
    progress: OperationProgress<Seq<char>, P, A, E>,
) -> bool {
    match progress {
        Progress::Finish(_) => true,
        Progress::Ask(next, call) => {
            &&& next.request == request
            &&& !changes(call, Side::Remote)
            &&& call == Call::<Seq<char>, P>::Forward(Side::Remote) ==> request is Get
        },
    }
}

/// An operation that fails records no change.
pub proof fn law_failure_records_nothing<S, P, A, E>(
    operation: Operation<Seq<char>>,
    state: CacheView<S>,
    reply: Reply<P, A, E>,
)
    requires
        !(operation.step(state, reply).1 matches Progress::Finish(Ok(_))),
    ensures
        operation.step(state, reply).0 == state,
{
}

} // verus!
