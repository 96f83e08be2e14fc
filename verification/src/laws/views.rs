//! What the models of calls, replies and results show: every part of the value, and nothing else.

use crate::commit::{Commit, CommitProgress, CommitView};
use crate::laws::characters::{comes_before, lemma_comes_before};
use crate::listing::{
    any_visible, joined, merged, nondescending, pairs, reply_pairs, Directory, DirectoryContents,
    DirectoryListing, DirectoryListingView, DirectoryReply, DirectoryView, Listing,
    ListingProgress, ListingView,
};
use crate::location::Location;
use crate::location_map::{
    ascending, entry_at, in_order, lemma_entry, map_of, texts, without_shared, Entry,
};
use crate::mirror::{DeleteProgress, MirrorDelete, Tier};
use crate::operation::{Operation, OperationProgress, Request, Stage};
use crate::protocol::{optional_text, result_view, Call, Error, Side, StoreError, SyncReply};
use crate::pull::{Pull, PullProgress, PullView};
use crate::removal::{location_result, Removal, RemovalProgress};
use crate::text::precedes;
use vstd::prelude::*;

verus! {

/// The model of a call is the call, with the text of its location.
pub proof fn law_call_is_shown<P>(side: Side, location: Location, payload: P)
    ensures
        Call::<Location, P>::Forward(side)@ == Call::<Seq<char>, P>::Forward(side),
        Call::<Location, P>::Fetch(side, location)@ == Call::<Seq<char>, P>::Fetch(
            side,
            location@,
        ),
        Call::<Location, P>::Store(side, location, payload)@ == Call::<Seq<char>, P>::Store(
            side,
            location@,
            payload,
        ),
        Call::<Location, P>::Probe(side, location)@ == Call::<Seq<char>, P>::Probe(
            side,
            location@,
        ),
        Call::<Location, P>::Delete(side, location)@ == Call::<Seq<char>, P>::Delete(
            side,
            location@,
        ),
        Call::<Location, P>::List(side, None)@ == Call::<Seq<char>, P>::List(side, None),
        Call::<Location, P>::List(side, Some(location))@ == Call::<Seq<char>, P>::List(
            side,
            Some(location@),
        ),
        optional_text(None) is None,
        optional_text(Some(location)) == Some(location@),
{
}

/// The model of an error is the error, with the text of its location.
pub proof fn law_error_is_shown<T, E>(
    location: Location,
    value: T,
    store: &'static str,
    source: &'static str,
    fault: StoreError<E>,
)
    ensures
        (Error::<Location, E>::NotFound { path: location, source })@ == (Error::<
            Seq<char>,
            E,
        >::NotFound { path: location@, source }),
        (Error::<Location, E>::Generic { store, source })@ == (Error::<Seq<char>, E>::Generic {
            store,
            source,
        }),
        Error::<Location, E>::Store(fault)@ == Error::<Seq<char>, E>::Store(fault),
        result_view::<T, E>(Ok(value)) == Ok::<T, Error<Seq<char>, E>>(value),
        result_view::<T, E>(Err(Error::Store(fault))) == Err::<T, Error<Seq<char>, E>>(
            Error::Store(fault),
        ),
        result_view::<T, E>(Err(Error::Generic { store, source })) == Err::<
            T,
            Error<Seq<char>, E>,
        >(Error::Generic { store, source }),
        result_view::<T, E>(Err(Error::NotFound { path: location, source })) == Err::<
            T,
            Error<Seq<char>, E>,
        >(Error::NotFound { path: location@, source }),
        location_result::<E>(Ok(location)) == Ok::<Seq<char>, Error<Seq<char>, E>>(location@),
        location_result::<E>(Err(Error::Store(fault))) == Err::<Seq<char>, Error<Seq<char>, E>>(
            Error::Store(fault),
        ),
        location_result::<E>(Err(Error::Generic { store, source })) == Err::<
            Seq<char>,
            Error<Seq<char>, E>,
        >(Error::Generic { store, source }),
        location_result::<E>(Err(Error::NotFound { path: location, source })) == Err::<
            Seq<char>,
            Error<Seq<char>, E>,
        >(Error::NotFound { path: location@, source }),
{
}

/// The model of a request is the request, with the text of its locations; so is that of an operation.
pub proof fn law_request_is_shown(
    location: Location,
    other: Location,
    head: bool,
    request: Request<Location>,
    stage: Stage,
)
    ensures
        Request::Put(location)@ == Request::Put(location@),
        Request::PutMultipart(location)@ == Request::PutMultipart(location@),
        Request::Complete(location)@ == Request::Complete(location@),
        (Request::Get { location, head })@ == (Request::Get { location: location@, head }),
        (Request::Copy { from: location, to: other })@ == (Request::Copy {
            from: location@,
            to: other@,
        }),
        (Request::Rename { from: location, to: other })@ == (Request::Rename {
            from: location@,
            to: other@,
        }),
        (Operation { request, stage })@ == (Operation { request: request@, stage }),
{
}

/// The model of a reply is the reply, with the text of its locations.
pub proof fn law_reply_is_shown<D, P, E>(
    locations: Vec<Location>,
    entries: Vec<Entry<D>>,
    payload: P,
    fault: StoreError<E>,
    level: Directory<D>,
    i: int,
)
    ensures
        SyncReply::<Vec<Location>, P, E>::Payload(payload)@ == SyncReply::<
            Seq<Seq<char>>,
            P,
            E,
        >::Payload(payload),
        SyncReply::<Vec<Location>, P, E>::Done@ == SyncReply::<Seq<Seq<char>>, P, E>::Done,
        SyncReply::<Vec<Location>, P, E>::Fault(fault)@ == SyncReply::<
            Seq<Seq<char>>,
            P,
            E,
        >::Fault(fault),
        SyncReply::<Vec<Location>, P, E>::Objects(locations)@ == SyncReply::<
            Seq<Seq<char>>,
            P,
            E,
        >::Objects(texts(locations@)),
        texts(locations@).len() == locations@.len(),
        0 <= i < locations@.len() ==> texts(locations@)[i] == locations@[i]@,
        pairs(entries@).len() == entries@.len(),
        0 <= i < entries@.len() ==> pairs(entries@)[i] == (
            entries@[i].location@,
            entries@[i].value,
        ),
        reply_pairs::<D, E>(Ok(entries)) == Ok::<Seq<(Seq<char>, D)>, StoreError<E>>(
            pairs(entries@),
        ),
        reply_pairs::<D, E>(Err(fault)) == Err::<Seq<(Seq<char>, D)>, StoreError<E>>(fault),
        level@ == (DirectoryView {
            objects: pairs(level.objects@),
            common_prefixes: texts(level.common_prefixes@),
        }),
        DirectoryReply::<Directory<D>, Vec<Location>, E>::Level(level)@ == DirectoryReply::<
            DirectoryView<D>,
            Seq<Seq<char>>,
            E,
        >::Level(level@),
        DirectoryReply::<Directory<D>, Vec<Location>, E>::Objects(locations)@ == DirectoryReply::<
            DirectoryView<D>,
            Seq<Seq<char>>,
            E,
        >::Objects(texts(locations@)),
        DirectoryReply::<Directory<D>, Vec<Location>, E>::Fault(fault)@ == DirectoryReply::<
            DirectoryView<D>,
            Seq<Seq<char>>,
            E,
        >::Fault(fault),
{
}

/// The model of a move shows the call with the operation that waits for it, or else the result.
pub proof fn law_move_is_shown<P, A, D, E>(
    operation: Operation<Location>,
    answer: Result<A, Error<Location, E>>,
    call: Call<Location, P>,
    removal: Removal<Location>,
    deletion: Call<Location, ()>,
    removed: Result<Location, Error<Location, E>>,
    pull: Pull,
    commit: Commit,
    done: Result<(), Error<Location, E>>,
    delete: MirrorDelete<Location>,
    tier: Tier,
    location: Location,
    fault: StoreError<E>,
)
    ensures
        OperationProgress::<Location, P, A, E>::Ask(operation, call)@ == OperationProgress::<
            Seq<char>,
            P,
            A,
            E,
        >::Ask(operation@, call@),
        OperationProgress::<Location, P, A, E>::Finish(answer)@ == OperationProgress::<
            Seq<char>,
            P,
            A,
            E,
        >::Finish(result_view(answer)),
        RemovalProgress::<Location, E>::Ask(removal, deletion)@ == RemovalProgress::<
            Seq<char>,
            E,
        >::Ask(Removal { location: removal.location@ }, deletion@),
        RemovalProgress::<Location, E>::Finish(removed)@ == RemovalProgress::<
            Seq<char>,
            E,
        >::Finish(location_result(removed)),
        PullProgress::<Pull, Location, P, E>::Ask(pull, call)@ == PullProgress::<
            PullView,
            Seq<char>,
            P,
            E,
        >::Ask(pull@, call@),
        PullProgress::<Pull, Location, P, E>::Finish(done)@ == PullProgress::<
            PullView,
            Seq<char>,
            P,
            E,
        >::Finish(result_view(done)),
        CommitProgress::<Commit, Location, P, E>::Ask(commit, call)@ == CommitProgress::<
            CommitView,
            Seq<char>,
            P,
            E,
        >::Ask(commit@, call@),
        CommitProgress::<Commit, Location, P, E>::Finish(done)@ == CommitProgress::<
            CommitView,
            Seq<char>,
            P,
            E,
        >::Finish(result_view(done)),
        DeleteProgress::<Location, E>::Ask(delete, tier)@ == DeleteProgress::<Seq<char>, E>::Ask(
            MirrorDelete { location: delete.location@, tier: delete.tier },
            tier,
        ),
        DeleteProgress::<Location, E>::Finish(Ok(location))@ == DeleteProgress::<
            Seq<char>,
            E,
        >::Finish(Ok(location@)),
        DeleteProgress::<Location, E>::Finish(Err(fault))@ == DeleteProgress::<
            Seq<char>,
            E,
        >::Finish(Err(fault)),
{
}

/// The model of a finished listing holds each listed object under its location, and each prefix as
/// often as it is listed; that of an unfinished one shows the call.
pub proof fn law_listing_is_shown<D, E>(
    listing: Listing<D>,
    directory: DirectoryListing<D>,
    call: Call<Location, ()>,
    entries: Vec<Entry<D>>,
    level: Directory<D>,
    error: Error<Location, E>,
)
    ensures
        ListingProgress::<Listing<D>, Location, Vec<Entry<D>>, E>::Ask(listing, call)@
            == ListingProgress::<ListingView<D>, Seq<char>, Map<Seq<char>, D>, E>::Ask(
            listing@,
            call@,
        ),
        ListingProgress::<Listing<D>, Location, Vec<Entry<D>>, E>::Finish(Ok(entries))@
            == ListingProgress::<ListingView<D>, Seq<char>, Map<Seq<char>, D>, E>::Finish(
            Ok(map_of(entries@)),
        ),
        ListingProgress::<Listing<D>, Location, Vec<Entry<D>>, E>::Finish(Err(error))@
            == ListingProgress::<ListingView<D>, Seq<char>, Map<Seq<char>, D>, E>::Finish(
            Err(error@),
        ),
        ListingProgress::<DirectoryListing<D>, Location, Directory<D>, E>::Ask(directory, call)@
            == ListingProgress::<
            DirectoryListingView<D>,
            Seq<char>,
            DirectoryContents<D>,
            E,
        >::Ask(directory@, call@),
        ListingProgress::<DirectoryListing<D>, Location, Directory<D>, E>::Finish(Ok(level))@
            == ListingProgress::<
            DirectoryListingView<D>,
            Seq<char>,
            DirectoryContents<D>,
            E,
        >::Finish(
            Ok(
                DirectoryContents {
                    objects: map_of(level.objects@),
                    common_prefixes: texts(level.common_prefixes@).to_multiset(),
                },
            ),
        ),
        ListingProgress::<DirectoryListing<D>, Location, Directory<D>, E>::Finish(Err(error))@
            == ListingProgress::<
            DirectoryListingView<D>,
            Seq<char>,
            DirectoryContents<D>,
            E,
        >::Finish(Err(error@)),
{
}

/// Entries in order are in the order of a dictionary, without repetition.
pub proof fn law_orders<V>(entries: Seq<Entry<V>>, sequence: Seq<Seq<char>>)
    ensures
        in_order(entries) <==> forall|i: int, j: int|
            0 <= i < j < entries.len() ==> comes_before(
                #[trigger] entries[i].location@,
                #[trigger] entries[j].location@,
            ),
        ascending(sequence) <==> forall|i: int, j: int|
            0 <= i < j < sequence.len() ==> comes_before(
                #[trigger] sequence[i],
                #[trigger] sequence[j],
            ),
        nondescending(sequence) <==> forall|i: int, j: int|
            0 <= i < j < sequence.len() ==> !comes_before(
                #[trigger] sequence[j],
                #[trigger] sequence[i],
            ),
{
    assert forall|a: Seq<char>, b: Seq<char>|
        #![trigger precedes(a, b)]
        #![trigger comes_before(a, b)]
        precedes(a, b) == comes_before(a, b) by {
        lemma_comes_before(a, b);
    }
}

/// The map of entries in order holds exactly their locations, each with its own value.
pub proof fn law_map_of_entries<V>(entries: Seq<Entry<V>>, text: Seq<char>, i: int)
    requires
        in_order(entries),
    ensures
        map_of(entries).contains_key(text) <==> exists|k: int|
            0 <= k < entries.len() && #[trigger] entries[k].location@ == text,
        0 <= i < entries.len() ==> map_of(entries).contains_key(entries[i].location@)
            && map_of(entries)[entries[i].location@] == entries[i].value,
{
    if map_of(entries).contains_key(text) {
        let k = choose|k: int| entry_at(entries, text, k);
        assert(entries[k].location@ == text);
    }
    if exists|k: int| 0 <= k < entries.len() && #[trigger] entries[k].location@ == text {
        let k = choose|k: int| 0 <= k < entries.len() && #[trigger] entries[k].location@ == text;
        assert(entry_at(entries, text, k));
    }
    if 0 <= i < entries.len() {
        lemma_entry(entries, i);
    }
}

/// Of two maps, what one does not share with the other is what it alone holds with that value.
pub proof fn law_unshared(
    map: Map<Seq<char>, u64>,
    other: Map<Seq<char>, u64>,
    text: Seq<char>,
)
    ensures
        without_shared(map, other).contains_key(text) <==> map.contains_key(text) && !(
        other.contains_key(text) && other[text] == map[text]),
        without_shared(map, other).contains_key(text) ==> without_shared(map, other)[text]
            == map[text],
{
}

/// A listed object that was not deleted locally takes the place of what was listed before it at the
/// same location; one that was deleted is passed over. A prefix that is there already is not added
/// again. Something is visible where some listed location was not deleted.
pub proof fn law_listed_one_by_one<D>(
    objects: Map<Seq<char>, D>,
    listed: Seq<(Seq<char>, D)>,
    text: Seq<char>,
    details: D,
    deleted: Map<Seq<char>, u64>,
    prefixes: Seq<Seq<char>>,
    more: Seq<Seq<char>>,
)
    ensures
        merged(objects, Seq::empty(), deleted) == objects,
        merged(objects, listed.push((text, details)), deleted) == (if deleted.contains_key(text) {
            merged(objects, listed, deleted)
        } else {
            merged(objects, listed, deleted).insert(text, details)
        }),
        joined(prefixes, Seq::empty()) == prefixes,
        joined(prefixes, more.push(text)) == (if joined(prefixes, more).contains(text) {
            joined(prefixes, more)
        } else {
            joined(prefixes, more).push(text)
        }),
        any_visible(more, deleted) <==> exists|t: Seq<char>| #[trigger]
            more.contains(t) && !deleted.contains_key(t),
{
    assert(listed.push((text, details)).drop_last() =~= listed);
    assert(more.push(text).drop_last() =~= more);
    if any_visible(more, deleted) {
        let i = choose|i: int| 0 <= i < more.len() && !deleted.contains_key(#[trigger] more[i]);
        assert(more.contains(more[i]));
    }
    if exists|t: Seq<char>| #[trigger] more.contains(t) && !deleted.contains_key(t) {
        let t = choose|t: Seq<char>| #[trigger] more.contains(t) && !deleted.contains_key(t);
        let i = choose|i: int| 0 <= i < more.len() && more[i] == t;
        assert(!deleted.contains_key(more[i]));
    }
}

} // verus!
