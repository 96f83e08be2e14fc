//! A model of the two stores underneath the local cache, and of how they answer calls.

use crate::local_cache::CacheView;
use crate::protocol::{Call, Side, StoreError, SyncReply};
use vstd::prelude::*;

verus! {

/// The objects of the two stores, by location.
#[verifier::ext_equal]
pub struct World<P> {
    pub remote: Map<Seq<char>, P>,
    pub cache: Map<Seq<char>, P>,
}

impl<P> World<P> {
    /// The objects of the store on this side.
    pub open spec fn on(self, side: Side) -> Map<Seq<char>, P> {
        match side {
            Side::Remote => self.remote,
            Side::Cache => self.cache,
        }
    }

    /// The world with other objects on this side.
    pub open spec fn with(self, side: Side, objects: Map<Seq<char>, P>) -> Self {
        match side {
            Side::Remote => World { remote: objects, ..self },
            Side::Cache => World { cache: objects, ..self },
        }
    }
}

/// What was written locally is in the cache.
pub open spec fn holds_writes<S, P>(state: CacheView<S>, world: World<P>) -> bool {
    forall|text: Seq<char>| #[trigger]
        state.dirty.contains_key(text) ==> world.cache.contains_key(text)
}

/// What was written locally is in the cache, and what was deleted locally is not.
pub open spec fn consistent<S, P>(state: CacheView<S>, world: World<P>) -> bool {
    &&& holds_writes(state, world)
    &&& forall|text: Seq<char>| #[trigger]
        state.deleted.contains_key(text) ==> !world.cache.contains_key(text)
}

/// The objects as a reader sees them: those of the cache and of the backing store that were not
/// deleted locally. Of an object that both hold, the reader sees that of the cache.
pub open spec fn visible<S, P>(state: CacheView<S>, world: World<P>) -> Map<Seq<char>, P> {
    Map::new(
        |text: Seq<char>|
            !state.deleted.contains_key(text) && (world.cache.contains_key(text)
                || world.remote.contains_key(text)),
        |text: Seq<char>|
            if world.cache.contains_key(text) {
                world.cache[text]
            } else {
                world.remote[text]
            },
    )
}

/// The two agree on the location: both hold the same object there, or neither holds one.
pub open spec fn agree_at<P>(
    a: Map<Seq<char>, P>,
    b: Map<Seq<char>, P>,
    text: Seq<char>,
) -> bool {
    &&& a.contains_key(text) == b.contains_key(text)
    &&& a.contains_key(text) ==> a[text] == b[text]
}

/// The location lies under the prefix. Prefixes count whole segments.
pub open spec fn under(prefix: Option<Seq<char>>, text: Seq<char>) -> bool {
    match prefix {
        None => true,
        Some(prefix) => prefix.len() == 0 || (prefix.len() < text.len() && text.take(
            prefix.len() as int,
        ) == prefix && text[prefix.len() as int] == '/'),
    }
}

/// Where the part of a location under the prefix begins that lies below the prefix.
pub open spec fn below(prefix: Option<Seq<char>>) -> int {
    match prefix {
        None => 0,
        Some(prefix) => if prefix.len() == 0 {
            0
        } else {
            prefix.len() as int + 1
        },
    }
}

/// The location lies directly under the prefix: one segment below it.
pub open spec fn directly_under(prefix: Option<Seq<char>>, text: Seq<char>) -> bool {
    under(prefix, text) && forall|i: int| below(prefix) <= i < text.len() ==> text[i] != '/'
}

/// `child` is the prefix one segment below `prefix` on the way to the location.
pub open spec fn leads_to(prefix: Option<Seq<char>>, child: Seq<char>, text: Seq<char>) -> bool {
    &&& under(prefix, text)
    &&& below(prefix) <= child.len() < text.len()
    &&& text.take(child.len() as int) == child
    &&& text[child.len() as int] == '/'
    &&& forall|i: int| below(prefix) <= i < child.len() ==> text[i] != '/'
}

/// The sequence lists the objects under the prefix.
pub open spec fn lists<P>(
    listed: Seq<Seq<char>>,
    objects: Map<Seq<char>, P>,
    prefix: Option<Seq<char>>,
) -> bool {
    forall|text: Seq<char>| #[trigger]
        listed.contains(text) <==> objects.contains_key(text) && under(prefix, text)
}

/// A way to list the objects under a prefix, in some order.
pub type Lister<P> = spec_fn(Map<Seq<char>, P>, Option<Seq<char>>) -> Seq<Seq<char>>;

/// The stores list what they hold. No store holds infinitely many objects.
pub open spec fn lists_all<P>(lister: Lister<P>) -> bool {
    forall|objects: Map<Seq<char>, P>, prefix: Option<Seq<char>>|
        objects.dom().finite() ==> lists(#[trigger] lister(objects, prefix), objects, prefix)
}

/// How the stores answer a call of a pull or a commit. `missing` is what a store reports of an
/// object that it lacks.
pub open spec fn sync_answered<P, E>(
    world: World<P>,
    lister: Lister<P>,
    missing: E,
    call: Call<Seq<char>, P>,
) -> (World<P>, SyncReply<Seq<Seq<char>>, P, E>) {
    match call {
        Call::Fetch(side, text) => if world.on(side).contains_key(text) {
            (world, SyncReply::Payload(world.on(side)[text]))
        } else {
            (world, SyncReply::Fault(StoreError::NotFound(missing)))
        },
        Call::Store(side, text, payload) => (
            world.with(side, world.on(side).insert(text, payload)),
            SyncReply::Done,
        ),
        Call::Delete(side, text) => if world.on(side).contains_key(text) {
            (world.with(side, world.on(side).remove(text)), SyncReply::Done)
        } else {
            (world, SyncReply::Fault(StoreError::NotFound(missing)))
        },
        Call::List(side, prefix) => (world, SyncReply::Objects(lister(world.on(side), prefix))),
        Call::Forward(_) | Call::Probe(_, _) => (world, SyncReply::Done),
    }
}

} // verus!
