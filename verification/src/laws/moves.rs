//! What is asked next, for every reply. The laws hold of every state, whatever else happened to it
//! since the operation began.

use crate::laws::records::{law_every_change_is_recorded, recorded_deletion, recorded_write};
use crate::local_cache::CacheView;
use crate::operation::{begun, Operation, OperationProgress, Request, Stage};
use crate::protocol::{Call, Error, Progress, Reply, Side, StoreError};
use crate::removal::{removal_begun, Removal, RemovalProgress};
use vstd::prelude::*;

verus! {

/// The location that the request reads an object from, if it reads one.
pub open spec fn reads(request: Request<Seq<char>>) -> Option<Seq<char>> {
    match request {
        Request::Get { location, head: _ } => Some(location),
        Request::Copy { from, to: _ } => Some(from),
        Request::Rename { from, to: _ } => Some(from),
        Request::Put(_) => None,
        Request::PutMultipart(_) => None,
        Request::Complete(_) => None,
    }
}

/// The operation goes on with the same request.
pub open spec fn asks<P, A, E>(
    progress: OperationProgress<Seq<char>, P, A, E>,
    request: Request<Seq<char>>,
    stage: Stage,
    call: Call<Seq<char>, P>,
) -> bool {
    match progress {
        Progress::Ask(next, asked) => next.request == request && next.stage == stage && asked
            == call,
        Progress::Finish(_) => false,
    }
}

/// The operation is over with this error.
pub open spec fn fails<P, A, E>(
    progress: OperationProgress<Seq<char>, P, A, E>,
    error: Error<Seq<char>, E>,
) -> bool {
    match progress {
        Progress::Ask(_, _) => false,
        Progress::Finish(result) => result == Err::<A, Error<Seq<char>, E>>(error),
    }
}

/// An operation begins with a call of the cache: a copy or a move asks whether the object is there,
/// and every other request is made of the cache as it stands. A closed cache refuses it, and so
/// does one from which the object to be read was deleted.
pub proof fn law_opening_move<S, P, A, E>(request: Request<Seq<char>>, state: CacheView<S>)
    ensures
        ({
            let first = begun::<S, P, A, E>(request, state);
            let lost = reads(request) matches Some(source) && state.deleted.contains_key(source);
            &&& state.closed ==> fails(
                first,
                Error::Generic {
                    store: "LocalCacheObjectStore",
                    source: "local cache is closed",
                },
            )
            &&& !state.closed && lost ==> fails(
                first,
                Error::NotFound {
                    path: reads(request)->Some_0,
                    source: "object was deleted in local cache",
                },
            )
            &&& !state.closed && !lost ==> asks(
                first,
                request,
                Stage::First,
                match request {
                    Request::Copy { from, to: _ } => Call::Probe(Side::Cache, from),
                    Request::Rename { from, to: _ } => Call::Probe(Side::Cache, from),
                    _ => Call::Forward(Side::Cache),
                },
            )
        }),
{
}

/// Once a store has answered the caller's own request, the operation is over with that very answer.
/// A write, a copy and a move are recorded then, and a read is not.
pub proof fn law_answer_is_the_result<S, P, A, E>(
    operation: Operation<Seq<char>>,
    state: CacheView<S>,
    answer: A,
)
    ensures
        ({
            let (after, next) = operation.step(state, Reply::<P, A, E>::Answer(answer));
            &&& next == OperationProgress::<Seq<char>, P, A, E>::Finish(Ok(answer))
            &&& match operation.request {
                Request::Put(location) => recorded_write(state, after, location),
                Request::PutMultipart(_) => after == state,
                Request::Complete(location) => recorded_write(state, after, location),
                Request::Get { location: _, head: _ } => after == state,
                Request::Copy { from: _, to } => recorded_write(state, after, to),
                Request::Rename { from, to } => exists|between: CacheView<S>| #[trigger]
                    recorded_deletion(state, between, from) && recorded_write(between, after, to),
            }
        }),
{
    let after = operation.step(state, Reply::<P, A, E>::Answer(answer)).0;
    match operation.request {
        Request::Put(location) => law_every_change_is_recorded(
            state,
            location,
        ),
        Request::Complete(location) => law_every_change_is_recorded(
            state,
            location,
        ),
        Request::Copy { from: _, to } => law_every_change_is_recorded(
            state,
            to,
        ),
        Request::Rename { from, to } => {
            law_every_change_is_recorded(state, from);
            let between = state.marked_deleted(from);
            law_every_change_is_recorded(between, to);
            assert(recorded_deletion(state, between, from));
        },
        _ => {},
    }
}

/// An object that was read from the backing store is written into the cache as it was read, at the
/// location that the request reads; once the cache holds the object, the caller's own request is
/// made of the cache. Neither is recorded.
pub proof fn law_object_is_brought_in<S, P, A, E>(
    operation: Operation<Seq<char>>,
    state: CacheView<S>,
    payload: P,
)
    ensures
        ({
            let (after, next) = operation.step(state, Reply::<P, A, E>::Payload(payload));
            &&& after == state
            &&& reads(operation.request) matches Some(source) ==> asks(
                next,
                operation.request,
                Stage::Storing,
                Call::Store(Side::Cache, source, payload),
            )
        }),
        ({
            let (after, next) = operation.step(state, Reply::<P, A, E>::Done);
            &&& after == state
            &&& asks(next, operation.request, Stage::Last, Call::Forward(Side::Cache))
        }),
{
}

/// That the cache lacks the object to be read is made up for: metadata alone is asked of the backing
/// store, and else the object is read there. An object that was deleted in the meantime stays
/// deleted.
pub proof fn law_miss<S, P, A, E>(
    operation: Operation<Seq<char>>,
    state: CacheView<S>,
    fault: E,
    source: Seq<char>,
)
    requires
        operation.stage == Stage::First,
        reads(operation.request) == Some(source),
    ensures
        ({
            let (after, next) = operation.step(
                state,
                Reply::<P, A, E>::Fault(StoreError::NotFound(fault)),
            );
            &&& after == state
            &&& if state.deleted.contains_key(source) {
                fails(
                    next,
                    Error::NotFound { path: source, source: "object was deleted in local cache" },
                )
            } else if operation.request == (Request::Get { location: source, head: true }) {
                asks(next, operation.request, Stage::Last, Call::Forward(Side::Remote))
            } else {
                asks(
                    next,
                    operation.request,
                    Stage::Fetching,
                    Call::Fetch(Side::Remote, source),
                )
            }
        }),
{
}

/// That the cache cannot take the object is made up for where it was to be read: the caller's own
/// request is then made of the backing store.
pub proof fn law_no_room<S, P, A, E>(
    location: Seq<char>,
    head: bool,
    state: CacheView<S>,
    fault: StoreError<E>,
)
    ensures
        ({
            let request = Request::Get { location, head };
            let (after, next) = (Operation { request, stage: Stage::Storing }).step(
                state,
                Reply::<P, A, E>::Fault(fault),
            );
            &&& after == state
            &&& asks(next, request, Stage::Last, Call::Forward(Side::Remote))
        }),
{
}

/// Every other failure of a store is the failure of the operation, and nothing is recorded.
pub proof fn law_failure_is_handed_on<S, P, A, E>(
    operation: Operation<Seq<char>>,
    state: CacheView<S>,
    fault: StoreError<E>,
)
    requires
        !(operation.stage == Stage::First && reads(operation.request) is Some
            && fault is NotFound),
        !(operation.stage == Stage::Storing && operation.request is Get),
    ensures
        ({
            let (after, next) = operation.step(state, Reply::<P, A, E>::Fault(fault));
            &&& after == state
            &&& fails(next, Error::Store(fault))
        }),
{
}

/// Which replies an operation can be advanced by: the failure of its call, or else what the call
/// gives.
pub proof fn law_operation_awaits<P, A, E>(
    operation: Operation<Seq<char>>,
    reply: Reply<P, A, E>,
)
    ensures
        operation.awaits(reply) <==> match reply {
            Reply::Fault(_) => true,
            Reply::Answer(_) => operation.stage == Stage::Last || operation.stage == Stage::First
                && !(operation.request is Copy) && !(operation.request is Rename),
            Reply::Payload(_) => operation.stage == Stage::Fetching,
            Reply::Done => operation.stage == Stage::Storing || operation.stage == Stage::First && (
            operation.request is Copy || operation.request is Rename),
        },
{
}

/// A deletion asks the cache to delete the object, and is recorded where the cache did or had none.
/// Any other failure is handed on, and nothing is recorded. So is a failure of the stream.
pub proof fn law_deletion_moves<S, E>(state: CacheView<S>, location: Seq<char>, fault: E)
    ensures
        removal_begun::<E>(Ok(location)) == RemovalProgress::<Seq<char>, E>::Ask(
            Removal { location },
            Call::Delete(Side::Cache, location),
        ),
        removal_begun::<E>(Err(StoreError::NotFound(fault))) == RemovalProgress::<
            Seq<char>,
            E,
        >::Finish(Err(Error::Store(StoreError::NotFound(fault)))),
        removal_begun::<E>(Err(StoreError::Other(fault))) == RemovalProgress::<
            Seq<char>,
            E,
        >::Finish(Err(Error::Store(StoreError::Other(fault)))),
        ({
            let (after, result) = (Removal { location }).step::<S, E>(state, Ok(()));
            recorded_deletion(state, after, location) && result == Ok::<
                Seq<char>,
                Error<Seq<char>, E>,
            >(location)
        }),
        ({
            let (after, result) = (Removal { location }).step::<S, E>(
                state,
                Err(StoreError::NotFound(fault)),
            );
            recorded_deletion(state, after, location) && result == Ok::<
                Seq<char>,
                Error<Seq<char>, E>,
            >(location)
        }),
        ({
            let (after, result) = (Removal { location }).step::<S, E>(
                state,
                Err(StoreError::Other(fault)),
            );
            after == state && result == Err::<Seq<char>, Error<Seq<char>, E>>(
                Error::Store(StoreError::Other(fault)),
            )
        }),
{
    law_every_change_is_recorded(state, location);
}

} // verus!
