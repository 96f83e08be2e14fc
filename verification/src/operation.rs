//! Reads and writes of single objects through the local cache.

use crate::local_cache::{admitted, closed, deleted, CacheView, LocalCacheObjectStore};
use crate::location::Location;
use crate::protocol::{result_view, Call, Error, Progress, Reply, Side, StoreError};
use vstd::prelude::*;

verus! {

/// What the caller asked for.
#[derive(Debug)]
pub enum Request<L> {
    /// Write an object.
    Put(L),
    /// Begin a write in parts.
    PutMultipart(L),
    /// Complete a write in parts.
    Complete(L),
    /// Read an object, or its metadata alone.
    Get { location: L, head: bool },
    /// Copy an object.
    Copy { from: L, to: L },
    /// Move an object.
    Rename { from: L, to: L },
}

/// How far an operation has come: which call it waits for.
#[derive(Debug, Clone, Copy, PartialEq, Eq, Structural)]
pub enum Stage {
    /// The first call, of the cache.
    First,
    /// Reading the object that the cache lacks from the backing store.
    Fetching,
    /// Writing that object into the cache.
    Storing,
    /// The caller's own request, whose outcome is the operation's.
    Last,
}

/// An operation on single objects that waits for a reply.
#[derive(Debug)]
pub struct Operation<L> {
    pub request: Request<L>,
    pub stage: Stage,
}

/// The next move of an [`Operation`].
pub type OperationProgress<L, P, A, E> = Progress<Operation<L>, Call<L, P>, Result<A, Error<L, E>>>;

impl View for Request<Location> {
    type V = Request<Seq<char>>;

    open spec fn view(&self) -> Request<Seq<char>> {
        match *self {
            Request::Put(location) => Request::Put(location@),
            Request::PutMultipart(location) => Request::PutMultipart(location@),
            Request::Complete(location) => Request::Complete(location@),
            Request::Get { location, head } => Request::Get { location: location@, head },
            Request::Copy { from, to } => Request::Copy { from: from@, to: to@ },
            Request::Rename { from, to } => Request::Rename { from: from@, to: to@ },
        }
    }
}

impl View for Operation<Location> {
    type V = Operation<Seq<char>>;

    open spec fn view(&self) -> Operation<Seq<char>> {
        Operation { request: self.request@, stage: self.stage }
    }
}

impl<P, A, E> View for OperationProgress<Location, P, A, E> {
    type V = OperationProgress<Seq<char>, P, A, E>;

    open spec fn view(&self) -> OperationProgress<Seq<char>, P, A, E> {
        match *self {
            Progress::Ask(operation, call) => Progress::Ask(operation@, call@),
            Progress::Finish(result) => Progress::Finish(result_view(result)),
        }
    }
}

impl<L> Request<L> {
    /// The location that the operation reads, and so may have to bring into the cache.
    pub open spec fn source(self) -> L {
        match self {
            Request::Put(location) => location,
            Request::PutMultipart(location) => location,
            Request::Complete(location) => location,
            Request::Get { location, .. } => location,
            Request::Copy { from, .. } => from,
            Request::Rename { from, .. } => from,
        }
    }

    /// The request reads an object only to write another.
    pub open spec fn is_transfer(self) -> bool {
        self is Copy || self is Rename
    }

    /// The request reads an object.
    pub open spec fn is_read(self) -> bool {
        self is Get || self.is_transfer()
    }

    /// The first call: the request itself, of the cache, or whether the cache has the object to
    /// be transferred.
    pub open spec fn first_call<P>(self) -> Call<L, P> {
        if self.is_transfer() {
            Call::Probe(Side::Cache, self.source())
        } else {
            Call::Forward(Side::Cache)
        }
    }
}

impl Request<Seq<char>> {
    /// The state after the request was carried out on the cache.
    pub open spec fn recorded<S>(self, state: CacheView<S>) -> CacheView<S> {
        match self {
            Request::Put(location) => state.marked_dirty(location),
            Request::PutMultipart(_) => state,
            Request::Complete(location) => state.marked_dirty(location),
            Request::Get { .. } => state,
            Request::Copy { to, .. } => state.marked_dirty(to),
            Request::Rename { from, to } => state.marked_deleted(from).marked_dirty(to),
        }
    }
}

impl<L> Operation<L> {
    /// The reply is one that the call the operation waits for can have.
    pub open spec fn awaits<P, A, E>(self, reply: Reply<P, A, E>) -> bool {
        reply is Fault || match self.stage {
            Stage::First => if self.request.is_transfer() {
                reply is Done
            } else {
                reply is Answer
            },
            Stage::Fetching => reply is Payload,
            Stage::Storing => reply is Done,
            Stage::Last => reply is Answer,
        }
    }

    /// The operation, waiting for another call.
    pub open spec fn at(self, stage: Stage) -> Self {
        Operation { stage, ..self }
    }
}

impl Operation<Seq<char>> {
    /// What follows where the cache lacks the object to be read.
    pub open spec fn after_miss<S, P, A, E>(self, state: CacheView<S>) -> OperationProgress<
        Seq<char>,
        P,
        A,
        E,
    > {
        let source = self.request.source();
        if state.deleted.contains_key(source) {
            Progress::Finish(Err(deleted(source)))
        } else if self.request matches Request::Get { head: true, .. } {
            Progress::Ask(self.at(Stage::Last), Call::Forward(Side::Remote))
        } else {
            Progress::Ask(self.at(Stage::Fetching), Call::Fetch(Side::Remote, source))
        }
    }

    /// The state and the next move after a reply.
    pub open spec fn step<S, P, A, E>(self, state: CacheView<S>, reply: Reply<P, A, E>) -> (
        CacheView<S>,
        OperationProgress<Seq<char>, P, A, E>,
    ) {
        match reply {
            // The caller's own request was carried out.
            Reply::Answer(answer) => (
                self.request.recorded(state),
                Progress::Finish(Ok(answer)),
            ),
            // The object that the cache lacked was read.
            Reply::Payload(payload) => (
                state,
                Progress::Ask(
                    self.at(Stage::Storing),
                    Call::Store(Side::Cache, self.request.source(), payload),
                ),
            ),
            // The cache has the object.
            Reply::Done => (
                state,
                Progress::Ask(self.at(Stage::Last), Call::Forward(Side::Cache)),
            ),
            Reply::Fault(fault) => if self.stage == Stage::First && self.request.is_read()
                && fault is NotFound {
                (state, self.after_miss(state))
            } else if self.stage == Stage::Storing && self.request is Get {
                // The cache cannot hold the object: it is read from the backing store.
                (state, Progress::Ask(self.at(Stage::Last), Call::Forward(Side::Remote)))
            } else {
                (state, Progress::Finish(Err(Error::Store(fault))))
            },
        }
    }
}

impl Operation<Location> {
    /// Advances the operation by the reply to its call.
    pub fn advance<S, P, A, E>(
        self,
        store: &mut LocalCacheObjectStore<S>,
        reply: Reply<P, A, E>,
    ) -> (progress: OperationProgress<Location, P, A, E>)
        requires
            self@.awaits(reply),
        ensures
            (final(store)@, progress@) == self@.step(old(store)@, reply),
            old(store)@.wf() ==> final(store)@.wf(),
    {
        let Operation { request, stage } = self;
        match reply {
            Reply::Answer(answer) => {
                Self::record(&request, store);
                Progress::Finish(Ok(answer))
            },
            Reply::Payload(payload) => {
                let source = Self::source(&request);
                Progress::Ask(
                    Operation { request, stage: Stage::Storing },
                    Call::Store(Side::Cache, source, payload),
                )
            },
            Reply::Done => Progress::Ask(
                Operation { request, stage: Stage::Last },
                Call::Forward(Side::Cache),
            ),
            Reply::Fault(fault) => match (stage, fault) {
                (Stage::First, StoreError::NotFound(fault)) => Self::miss(request, store, fault),
                (Stage::Storing, fault) => Self::not_stored(request, fault),
                (_, fault) => Progress::Finish(Err(Error::Store(fault))),
            },
        }
    }

    /// The location that the request reads.
    fn source(request: &Request<Location>) -> (location: Location)
        ensures
            location@ == request@.source(),
    {
        match request {
            Request::Put(location) => location.clone(),
            Request::PutMultipart(location) => location.clone(),
            Request::Complete(location) => location.clone(),
            Request::Get { location, .. } => location.clone(),
            Request::Copy { from, .. } => from.clone(),
            Request::Rename { from, .. } => from.clone(),
        }
    }

    /// Records that the request was carried out on the cache.
    fn record<S>(request: &Request<Location>, store: &mut LocalCacheObjectStore<S>)
        ensures
            final(store)@ == request@.recorded(old(store)@),
            old(store)@.wf() ==> final(store)@.wf(),
    {
        match request {
            Request::Put(location) => store.mark_dirty(location.clone()),
            Request::PutMultipart(_) => {},
            Request::Complete(location) => store.mark_dirty(location.clone()),
            Request::Get { .. } => {},
            Request::Copy { to, .. } => store.mark_dirty(to.clone()),
            Request::Rename { from, to } => {
                store.mark_deleted(from.clone());
                store.mark_dirty(to.clone());
            },
        }
    }

    /// Goes on where the object that the cache lacked could not be written there.
    fn not_stored<P, A, E>(
        request: Request<Location>,
        fault: StoreError<E>,
    ) -> (progress: OperationProgress<Location, P, A, E>)
        ensures
            progress@ == (if request@ is Get {
                OperationProgress::<Seq<char>, P, A, E>::Ask(
                    Operation { request: request@, stage: Stage::Last },
                    Call::Forward(Side::Remote),
                )
            } else {
                Progress::Finish(Err(Error::Store(fault)))
            }),
    {
        match &request {
            Request::Get { .. } => Progress::Ask(
                Operation { request, stage: Stage::Last },
                Call::Forward(Side::Remote),
            ),
            _ => Progress::Finish(Err(Error::Store(fault))),
        }
    }

    /// Goes on where the cache has no object at the location.
    fn miss<S, P, A, E>(
        request: Request<Location>,
        store: &LocalCacheObjectStore<S>,
        fault: E,
    ) -> (progress: OperationProgress<Location, P, A, E>)
        ensures
            progress@ == (if request@.is_read() {
                let operation = Operation { request: request@, stage: Stage::First };
                operation.after_miss::<S, P, A, E>(store@)
            } else {
                Progress::Finish(Err(Error::Store(StoreError::NotFound(fault))))
            }),
    {
        match &request {
            Request::Get { .. } | Request::Copy { .. } | Request::Rename { .. } => {},
            _ => {
                return Progress::Finish(Err(Error::Store(StoreError::NotFound(fault))));
            },
        }
        let source = Self::source(&request);
        match store.populate_from_remote(&source) {
            Err(error) => Progress::Finish(Err(error)),
            Ok(call) => {
                let head = match &request {
                    Request::Get { head, .. } => *head,
                    _ => false,
                };
                if head {
                    Progress::Ask(
                        Operation { request, stage: Stage::Last },
                        Call::Forward(Side::Remote),
                    )
                } else {
                    Progress::Ask(Operation { request, stage: Stage::Fetching }, call)
                }
            },
        }
    }
}

/// How an operation begins: it is refused where the cache was closed, and one that reads also where
/// the object was deleted locally.
pub open spec fn begun<S, P, A, E>(
    request: Request<Seq<char>>,
    state: CacheView<S>,
) -> OperationProgress<Seq<char>, P, A, E> {
    if state.closed {
        Progress::Finish(Err(closed()))
    } else if request.is_read() && state.deleted.contains_key(request.source()) {
        Progress::Finish(Err(deleted(request.source())))
    } else {
        Progress::Ask(Operation { request, stage: Stage::First }, request.first_call())
    }
}

impl<S> LocalCacheObjectStore<S> {
    /// Begins an operation, unless the cache was closed.
    fn begin<P, A, E>(&self, request: Request<Location>) -> (progress: OperationProgress<
        Location,
        P,
        A,
        E,
    >)
        ensures
            progress@ == begun::<S, P, A, E>(request@, self@),
    {
        let checked = match self.check_open() {
            Err(error) => Err(error),
            Ok(_) => match &request {
                Request::Get { location, .. } => self.check_not_deleted(location),
                Request::Copy { from, .. } => self.check_not_deleted(from),
                Request::Rename { from, .. } => self.check_not_deleted(from),
                _ => Ok(()),
            },
        };
        match checked {
            Err(error) => Progress::Finish(Err(error)),
            Ok(_) => {
                let call = match &request {
                    Request::Copy { from, .. } => Call::Probe(Side::Cache, from.clone()),
                    Request::Rename { from, .. } => Call::Probe(Side::Cache, from.clone()),
                    _ => Call::Forward(Side::Cache),
                };
                Progress::Ask(Operation { request, stage: Stage::First }, call)
            },
        }
    }

    /// Writes an object. The write goes to the cache and is committed later.
    pub fn put_opts<P, A, E>(&self, location: Location) -> (progress: OperationProgress<
        Location,
        P,
        A,
        E,
    >)
        ensures
            progress@ == begun::<S, P, A, E>(Request::Put(location@), self@),
    {
        self.begin(Request::Put(location))
    }

    /// Begins a write in parts. The parts go to the cache.
    pub fn put_multipart_opts<P, A, E>(&self, location: Location) -> (progress: OperationProgress<
        Location,
        P,
        A,
        E,
    >)
        ensures
            progress@ == begun::<S, P, A, E>(Request::PutMultipart(location@), self@),
    {
        self.begin(Request::PutMultipart(location))
    }

    /// Reads an object, or with `head` its metadata alone.
    ///
    /// An object that the cache lacks is copied there first where that is possible, and else read
    /// from the backing store. Metadata alone comes from the backing store without a copy. An
    /// object that was deleted locally is not found, whatever the two stores hold.
    pub fn get_opts<P, A, E>(&self, location: Location, head: bool) -> (progress: OperationProgress<
        Location,
        P,
        A,
        E,
    >)
        ensures
            progress@ == begun::<S, P, A, E>(Request::Get { location: location@, head }, self@),
    {
        self.begin(Request::Get { location, head })
    }

    /// Reads ranges of an object. An object that the cache lacks is copied there first where that
    /// is possible, and else read from the backing store.
    pub fn get_ranges<P, A, E>(&self, location: Location) -> (progress: OperationProgress<
        Location,
        P,
        A,
        E,
    >)
        ensures
            progress@ == begun::<S, P, A, E>(
                Request::Get { location: location@, head: false },
                self@,
            ),
    {
        self.begin(Request::Get { location, head: false })
    }

    /// Copies an object within the cache. An object that the cache lacks is brought there first.
    pub fn copy_opts<P, A, E>(&self, from: Location, to: Location) -> (progress: OperationProgress<
        Location,
        P,
        A,
        E,
    >)
        ensures
            progress@ == begun::<S, P, A, E>(Request::Copy { from: from@, to: to@ }, self@),
    {
        self.begin(Request::Copy { from, to })
    }

    /// Moves an object within the cache. An object that the cache lacks is brought there first.
    pub fn rename_opts<P, A, E>(
        &self,
        from: Location,
        to: Location,
    ) -> (progress: OperationProgress<Location, P, A, E>)
        ensures
            progress@ == begun::<S, P, A, E>(Request::Rename { from: from@, to: to@ }, self@),
    {
        self.begin(Request::Rename { from, to })
    }
}

/// A write in parts through the local cache. `U` is the handle of the write in the cache.
#[derive(Debug)]
pub struct LocalCacheUpload<U> {
    pub upload: U,
    pub location: Location,
}

impl<U> LocalCacheUpload<U> {
    /// A write in parts to the location.
    pub fn new(upload: U, location: Location) -> (result: Self)
        ensures
            result == (LocalCacheUpload { upload, location }),
    {
        LocalCacheUpload { upload, location }
    }

    /// Whether a further part may be written: not once the cache was closed. The parts themselves
    /// go to the cache unchanged.
    pub fn put_part<S, E>(&self, store: &LocalCacheObjectStore<S>) -> (result: Result<
        (),
        Error<Location, E>,
    >)
        ensures
            result == admitted::<S, Location, E>(store@),
    {
        store.check_open()
    }

    /// Completes the write. Only then does the location count as written.
    pub fn complete<S, P, A, E>(&self, store: &LocalCacheObjectStore<S>) -> (progress:
        OperationProgress<Location, P, A, E>)
        ensures
            progress@ == begun::<S, P, A, E>(Request::Complete(self.location@), store@),
    {
        store.begin(Request::Complete(self.location.clone()))
    }
}

} // verus!
