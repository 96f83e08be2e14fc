//! What is recorded of a change, field by field.

use crate::local_cache::{admitted, closed, deleted, CacheView};
use crate::protocol::Error;
use vstd::prelude::*;

verus! {

/// One more change was counted; the count stops at its largest value. The stores, the prefix and
/// whether the cache is closed are as before.
pub open spec fn counted<S>(before: CacheView<S>, after: CacheView<S>) -> bool {
    &&& before.change_generation < u64::MAX ==> after.change_generation
        == before.change_generation + 1
    &&& before.change_generation == u64::MAX ==> after.change_generation == u64::MAX
    &&& after.remote == before.remote
    &&& after.cache == before.cache
    &&& after.sync_prefix == before.sync_prefix
    &&& after.closed == before.closed
}

/// The location was recorded as written by the last change, and no longer as deleted. The records
/// of every other location are as before.
pub open spec fn recorded_write<S>(
    before: CacheView<S>,
    after: CacheView<S>,
    text: Seq<char>,
) -> bool {
    &&& counted(before, after)
    &&& after.dirty.contains_key(text)
    &&& after.dirty[text] == after.change_generation
    &&& after.dirty.remove(text) == before.dirty.remove(text)
    &&& !after.deleted.contains_key(text)
    &&& after.deleted == before.deleted.remove(text)
}

/// The location was recorded as deleted by the last change, and no longer as written. The records
/// of every other location are as before.
pub open spec fn recorded_deletion<S>(
    before: CacheView<S>,
    after: CacheView<S>,
    text: Seq<char>,
) -> bool {
    &&& counted(before, after)
    &&& after.deleted.contains_key(text)
    &&& after.deleted[text] == after.change_generation
    &&& after.deleted.remove(text) == before.deleted.remove(text)
    &&& !after.dirty.contains_key(text)
    &&& after.dirty == before.dirty.remove(text)
}

/// Every write and every deletion is recorded, whatever the location.
pub proof fn law_every_change_is_recorded<S>(state: CacheView<S>, text: Seq<char>)
    ensures
        recorded_write(state, state.marked_dirty(text), text),
        recorded_deletion(state, state.marked_deleted(text), text),
        state.change_generation < u64::MAX ==> state.next_generation() == state.change_generation
            + 1,
        state.change_generation == u64::MAX ==> state.next_generation() == u64::MAX,
{
    assert(state.marked_dirty(text).dirty.remove(text) =~= state.dirty.remove(text));
    assert(state.marked_deleted(text).deleted.remove(text) =~= state.deleted.remove(text));
}

/// The generation of a change is later than that of every change before it, as long as the count
/// has not reached its largest value.
pub proof fn law_generation_is_latest<S>(
    before: CacheView<S>,
    written: CacheView<S>,
    erased: CacheView<S>,
    text: Seq<char>,
    other: Seq<char>,
)
    requires
        before.wf(),
        before.change_generation < u64::MAX,
        recorded_write(before, written, text),
        recorded_deletion(before, erased, text),
    ensures
        before.dirty.contains_key(other) ==> before.dirty[other] < written.dirty[text]
            && before.dirty[other] < erased.deleted[text],
        before.deleted.contains_key(other) ==> before.deleted[other] < written.dirty[text]
            && before.deleted[other] < erased.deleted[text],
{
}

/// What is in order: no location is recorded twice, each generation was counted, and different
/// locations share a generation only at the largest value of the count.
pub proof fn law_in_order<S>(state: CacheView<S>)
    ensures
        state.wf() <==> {
            &&& forall|s: Seq<char>| #[trigger]
                state.dirty.contains_key(s) ==> !state.deleted.contains_key(s) && 0 < state.dirty[s]
                    && state.dirty[s] <= state.change_generation
            &&& forall|s: Seq<char>| #[trigger]
                state.deleted.contains_key(s) ==> 0 < state.deleted[s] && state.deleted[s]
                    <= state.change_generation
            &&& forall|s: Seq<char>, t: Seq<char>| #[trigger]
                state.dirty.contains_key(s) && #[trigger] state.dirty.contains_key(t) && s != t
                    && state.dirty[s] < u64::MAX ==> state.dirty[s] != state.dirty[t]
            &&& forall|s: Seq<char>, t: Seq<char>| #[trigger]
                state.deleted.contains_key(s) && #[trigger] state.deleted.contains_key(t) && s != t
                    && state.deleted[s] < u64::MAX ==> state.deleted[s] != state.deleted[t]
            &&& forall|s: Seq<char>, t: Seq<char>| #[trigger]
                state.dirty.contains_key(s) && #[trigger] state.deleted.contains_key(t) && s != t
                    && state.dirty[s] < u64::MAX ==> state.dirty[s] != state.deleted[t]
        },
{
}

/// A change is forgotten exactly where it is among the committed ones with the very generation that
/// it has. Nothing else changes.
pub proof fn law_forgets_by_generation<S>(
    state: CacheView<S>,
    dirty: Map<Seq<char>, u64>,
    deleted: Map<Seq<char>, u64>,
    text: Seq<char>,
)
    ensures
        ({
            let after = state.committed(dirty, deleted);
            &&& after.dirty.contains_key(text) <==> state.dirty.contains_key(text) && !(
            dirty.contains_key(text) && dirty[text] == state.dirty[text])
            &&& after.dirty.contains_key(text) ==> after.dirty[text] == state.dirty[text]
            &&& after.deleted.contains_key(text) <==> state.deleted.contains_key(text) && !(
            deleted.contains_key(text) && deleted[text] == state.deleted[text])
            &&& after.deleted.contains_key(text) ==> after.deleted[text] == state.deleted[text]
            &&& after.change_generation == state.change_generation
            &&& after.remote == state.remote
            &&& after.cache == state.cache
            &&& after.sync_prefix == state.sync_prefix
            &&& after.closed == state.closed
        }),
{
}

/// What a refused caller is told: that the cache is closed, or which object was deleted.
pub proof fn law_refusals<S, L, E>(state: CacheView<S>, text: Seq<char>)
    ensures
        closed::<L, E>() == (Error::<L, E>::Generic {
            store: "LocalCacheObjectStore",
            source: "local cache is closed",
        }),
        deleted::<E>(text) == (Error::<Seq<char>, E>::NotFound {
            path: text,
            source: "object was deleted in local cache",
        }),
        state.closed ==> admitted::<S, L, E>(state) == Err::<(), Error<L, E>>(
            Error::Generic {
                store: "LocalCacheObjectStore",
                source: "local cache is closed",
            },
        ),
        !state.closed ==> admitted::<S, L, E>(state) == Ok::<(), Error<L, E>>(()),
{
}

} // verus!
