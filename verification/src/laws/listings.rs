//! What listings amount to.

use crate::laws::sequences::{lemma_filter_keeps, lemma_filter_once};
use crate::laws::world::{below, directly_under, leads_to, lists, under, visible, World};
use crate::location::{segment_at, valid_path, valid_segment};
use crate::listing::{
    any_visible, directory_begun, joined, listing_begun, merged, DirectoryContents,
    DirectoryListingView, DirectoryReply, DirectoryStage, DirectoryView, ListingProgress,
    ListingView,
};
use crate::local_cache::CacheView;
use crate::protocol::{Call, Error, Progress, Side, StoreError};
use vstd::prelude::*;

verus! {

/// The locations of listed objects.
pub open spec fn names<D>(listed: Seq<(Seq<char>, D)>) -> Seq<Seq<char>> {
    listed.map_values(|pair: (Seq<char>, D)| pair.0)
}

/// The listing of the prefix ends with these objects, where the two stores list theirs so.
pub open spec fn listing_ends<S, D, E>(
    prefix: Option<Seq<char>>,
    state: CacheView<S>,
    remote: Seq<(Seq<char>, D)>,
    cache: Seq<(Seq<char>, D)>,
    objects: Map<Seq<char>, D>,
) -> bool {
    exists|first: ListingView<D>, second: ListingView<D>|
        {
            &&& listing_begun::<S, D, E>(prefix, state) == listing_asks::<D, E>(
                first,
                Side::Remote,
                prefix,
            )
            &&& #[trigger] first.step::<E>(Ok(remote)) == listing_asks::<D, E>(
                second,
                Side::Cache,
                prefix,
            )
            &&& #[trigger] second.step::<E>(Ok(cache)) == ListingProgress::<
                ListingView<D>,
                Seq<char>,
                Map<Seq<char>, D>,
                E,
            >::Finish(Ok(objects))
        }
}

/// The listing asks the store on this side for its objects.
pub open spec fn listing_asks<D, E>(
    listing: ListingView<D>,
    side: Side,
    prefix: Option<Seq<char>>,
) -> ListingProgress<ListingView<D>, Seq<char>, Map<Seq<char>, D>, E> {
    Progress::Ask(listing, Call::List(side, prefix))
}

proof fn lemma_merged<D>(
    objects: Map<Seq<char>, D>,
    listed: Seq<(Seq<char>, D)>,
    deleted: Map<Seq<char>, u64>,
)
    ensures
        ({
            let all = merged(objects, listed, deleted);
            &&& forall|text: Seq<char>| #[trigger]
                all.contains_key(text) <==> objects.contains_key(text) || (names(listed).contains(
                    text,
                ) && !deleted.contains_key(text))
            &&& forall|text: Seq<char>| #[trigger]
                all.contains_key(text) ==> if names(listed).contains(text)
                    && !deleted.contains_key(text) {
                    listed.contains((text, all[text]))
                } else {
                    all[text] == objects[text]
                }
        }),
    decreases listed.len(),
{
    if listed.len() > 0 {
        let fore = listed.drop_last();
        let last = listed.last();
        lemma_merged(objects, fore, deleted);
        let before = merged(objects, fore, deleted);
        let all = merged(objects, listed, deleted);
        assert(listed =~= fore.push(last));
        assert(names(listed) =~= names(fore).push(last.0));
        assert(listed[listed.len() - 1] == last);
        assert(names(listed)[listed.len() - 1] == last.0);
        assert forall|text: Seq<char>| text != last.0 implies #[trigger] names(
            listed,
        ).contains(text) == names(fore).contains(text) by {
            if names(listed).contains(text) {
                let i = choose|i: int| 0 <= i < listed.len() && names(listed)[i] == text;
                assert(names(fore)[i] == text);
            }
            if names(fore).contains(text) {
                let i = choose|i: int| 0 <= i < fore.len() && names(fore)[i] == text;
                assert(names(listed)[i] == text);
            }
        }
        assert forall|text: Seq<char>| #[trigger] all.contains_key(text) implies if names(
            listed,
        ).contains(text) && !deleted.contains_key(text) {
            listed.contains((text, all[text]))
        } else {
            all[text] == objects[text]
        } by {
            if text != last.0 {
                assert(before.contains_key(text));
                if names(fore).contains(text) && !deleted.contains_key(text) {
                    let pair = (text, all[text]);
                    assert(fore.contains(pair));
                    let i = choose|i: int| 0 <= i < fore.len() && fore[i] == pair;
                    assert(listed[i] == pair);
                }
            } else if deleted.contains_key(text) {
                assert(before.contains_key(text));
            }
        }
    }
}

/// A listing holds the objects of both stores, without those that were deleted locally. Of an
/// object that both hold, the details are those of the cache.
pub proof fn law_list<S, D, E>(
    prefix: Option<Seq<char>>,
    state: CacheView<S>,
    remote: Seq<(Seq<char>, D)>,
    cache: Seq<(Seq<char>, D)>,
) -> (objects: Map<Seq<char>, D>)
    requires
        !state.closed,
    ensures
        listing_ends::<S, D, E>(prefix, state, remote, cache, objects),
        forall|text: Seq<char>| #[trigger]
            objects.contains_key(text) <==> !state.deleted.contains_key(text) && (names(
                remote,
            ).contains(text) || names(cache).contains(text)),
        forall|text: Seq<char>| #[trigger]
            objects.contains_key(text) ==> if names(cache).contains(text) {
                cache.contains((text, objects[text]))
            } else {
                remote.contains((text, objects[text]))
            },
{
    let found = merged(Map::empty(), remote, state.deleted);
    let objects = merged(found, cache, state.deleted);
    lemma_merged(Map::empty(), remote, state.deleted);
    lemma_merged(found, cache, state.deleted);
    if let Progress::Ask(first, _) = listing_begun::<S, D, E>(prefix, state) {
        if let Progress::Ask(second, _) = first.step::<E>(Ok(remote)) {
            assert(first.step::<E>(Ok(remote)) == listing_asks::<D, E>(
                second,
                Side::Cache,
                prefix,
            ));
            assert(second.step::<E>(Ok(cache)) == ListingProgress::<
                ListingView<D>,
                Seq<char>,
                Map<Seq<char>, D>,
                E,
            >::Finish(Ok(objects)));
        }
    }
    objects
}

/// A listing shows exactly the visible objects under the prefix.
pub proof fn law_list_shows_visible<S, P, D, E>(
    prefix: Option<Seq<char>>,
    state: CacheView<S>,
    world: World<P>,
    remote: Seq<(Seq<char>, D)>,
    cache: Seq<(Seq<char>, D)>,
) -> (objects: Map<Seq<char>, D>)
    requires
        !state.closed,
        lists(names(remote), world.remote, prefix),
        lists(names(cache), world.cache, prefix),
    ensures
        listing_ends::<S, D, E>(prefix, state, remote, cache, objects),
        forall|text: Seq<char>| #[trigger]
            objects.contains_key(text) <==> visible(state, world).contains_key(text) && under(
                prefix,
                text,
            ),
{
    law_list::<S, D, E>(prefix, state, remote, cache)
}

/// What the two stores reply to a listing of one level.
pub struct Levels<D> {
    /// The level in the backing store.
    pub remote: DirectoryView<D>,
    /// The level in the cache.
    pub cache: DirectoryView<D>,
    /// The objects that the store on a side holds under a prefix.
    pub below: spec_fn(Side, Seq<char>) -> Seq<Seq<char>>,
}

impl<D> Levels<D> {
    /// How the stores answer a call of a listing of one level.
    pub open spec fn answered<E>(self, call: Call<Seq<char>, ()>) -> DirectoryReply<
        DirectoryView<D>,
        Seq<Seq<char>>,
        E,
    > {
        match call {
            Call::Forward(Side::Remote) => DirectoryReply::Level(self.remote),
            Call::Forward(Side::Cache) => DirectoryReply::Level(self.cache),
            Call::List(side, Some(prefix)) => DirectoryReply::Objects((self.below)(side, prefix)),
            _ => DirectoryReply::Objects(Seq::empty()),
        }
    }

    /// Some object under the prefix was not deleted locally.
    pub open spec fn holds(self, deleted: Map<Seq<char>, u64>, prefix: Seq<char>) -> bool {
        exists|text: Seq<char>|
            !(#[trigger] deleted.contains_key(text)) && ((self.below)(Side::Cache, prefix).contains(
                text,
            ) || (self.below)(Side::Remote, prefix).contains(text))
    }
}

/// Runs the listing of one level until it is over, for as many calls as there is fuel.
pub open spec fn directory_run<D, E>(
    progress: ListingProgress<DirectoryListingView<D>, Seq<char>, DirectoryContents<D>, E>,
    levels: Levels<D>,
    fuel: nat,
) -> Option<Result<DirectoryContents<D>, Error<Seq<char>, E>>>
    decreases fuel,
{
    match progress {
        Progress::Finish(result) => Some(result),
        Progress::Ask(listing, call) => if fuel == 0 {
            None
        } else {
            directory_run(listing.step(levels.answered(call)), levels, (fuel - 1) as nat)
        },
    }
}

proof fn lemma_probes_run<D, E>(
    listing: DirectoryListingView<D>,
    levels: Levels<D>,
    holds: spec_fn(Seq<char>) -> bool,
    fuel: nat,
)
    requires
        fuel >= 2 * listing.candidates.len(),
        forall|prefix: Seq<char>| #[trigger]
            holds(prefix) == levels.holds(listing.deleted, prefix),
    ensures
        directory_run(listing.probe::<E>(), levels, fuel) == Some(
            Ok::<DirectoryContents<D>, Error<Seq<char>, E>>(
                DirectoryContents {
                    objects: listing.objects,
                    common_prefixes: (listing.visible + listing.candidates.filter(
                        holds,
                    )).to_multiset(),
                },
            ),
        ),
    decreases listing.candidates.len(),
{
    reveal(Seq::filter);
    if listing.candidates.len() > 0 {
        reveal_with_fuel(directory_run, 3);
        let prefix = listing.candidates[0];
        lemma_holds(levels, listing.deleted, prefix);
        let rest = listing.candidates.drop_first();
        assert(listing.candidates =~= seq![prefix] + rest);
        Seq::filter_distributes_over_add(seq![prefix], rest, holds);
        let none = Seq::<Seq<char>>::empty();
        none.lemma_filter_push(prefix, holds);
        assert(none.push(prefix) =~= seq![prefix]);
        assert(seq![prefix].filter(holds) =~= if holds(prefix) {
            seq![prefix]
        } else {
            Seq::empty()
        });
        let probing = DirectoryListingView { stage: DirectoryStage::ProbingCache, ..listing };
        let again = DirectoryListingView { stage: DirectoryStage::ProbingRemote, ..listing };
        if any_visible((levels.below)(Side::Cache, prefix), listing.deleted) {
            lemma_probes_run::<D, E>(probing.decided(true), levels, holds, (fuel - 1) as nat);
            assert(listing.visible.push(prefix) + rest.filter(holds) =~= listing.visible
                + listing.candidates.filter(holds));
        } else {
            let found = any_visible((levels.below)(Side::Remote, prefix), listing.deleted);
            lemma_probes_run::<D, E>(again.decided(found), levels, holds, (fuel - 2) as nat);
            assert(again.decided(found).visible + rest.filter(holds) =~= listing.visible
                + listing.candidates.filter(holds));
        }
    } else {
        assert(listing.visible + listing.candidates.filter(holds) =~= listing.visible);
    }
}

proof fn lemma_joined(prefixes: Seq<Seq<char>>, more: Seq<Seq<char>>)
    ensures
        forall|text: Seq<char>| #[trigger]
            joined(prefixes, more).contains(text) <==> prefixes.contains(text) || more.contains(
                text,
            ),
    decreases more.len(),
{
    if more.len() > 0 {
        let fore = more.drop_last();
        let last = more.last();
        let before = joined(prefixes, fore);
        let all = joined(prefixes, more);
        lemma_joined(prefixes, fore);
        assert(more =~= fore.push(last));
        assert forall|text: Seq<char>| #[trigger]
            all.contains(text) <==> prefixes.contains(text) || more.contains(text) by {
            assert(more.contains(text) <==> fore.contains(text) || text == last) by {
                if fore.contains(text) {
                    let i = choose|i: int| 0 <= i < fore.len() && fore[i] == text;
                    assert(more[i] == text);
                }
                assert(more[more.len() - 1] == last);
            }
            assert(before.push(last).contains(text) <==> before.contains(text) || text == last) by {
                if before.contains(text) {
                    let i = choose|i: int| 0 <= i < before.len() && before[i] == text;
                    assert(before.push(last)[i] == text);
                }
                assert(before.push(last)[before.len() as int] == last);
            }
        }
    }
}

proof fn lemma_joined_once(prefixes: Seq<Seq<char>>, more: Seq<Seq<char>>)
    requires
        prefixes.no_duplicates(),
    ensures
        joined(prefixes, more).no_duplicates(),
    decreases more.len(),
{
    if more.len() > 0 {
        lemma_joined_once(prefixes, more.drop_last());
    }
}

/// One level of a listing holds the objects that both stores hold at that level, without those
/// that were deleted locally, and the prefixes that either names, without those under which every
/// object was deleted locally. A prefix that both name is held once; none is held twice, unless the
/// backing store names one twice.
pub proof fn law_list_with_delimiter<S, D, E>(state: CacheView<S>, levels: Levels<D>) -> (contents:
    DirectoryContents<D>)
    requires
        !state.closed,
    ensures
        exists|fuel: nat| #[trigger]
            directory_run(directory_begun::<S, D, E>(state), levels, fuel) == Some(
                Ok::<DirectoryContents<D>, Error<Seq<char>, E>>(contents),
            ),
        forall|text: Seq<char>| #[trigger]
            contents.objects.contains_key(text) <==> !state.deleted.contains_key(text) && (names(
                levels.remote.objects,
            ).contains(text) || names(levels.cache.objects).contains(text)),
        forall|text: Seq<char>| #[trigger]
            contents.objects.contains_key(text) ==> if names(levels.cache.objects).contains(
                text,
            ) {
                levels.cache.objects.contains((text, contents.objects[text]))
            } else {
                levels.remote.objects.contains((text, contents.objects[text]))
            },
        forall|prefix: Seq<char>| #[trigger]
            contents.common_prefixes.count(prefix) > 0 <==> levels.holds(state.deleted, prefix) && (
            levels.remote.common_prefixes.contains(prefix)
                || levels.cache.common_prefixes.contains(prefix)),
        levels.remote.common_prefixes.no_duplicates() ==> forall|prefix: Seq<char>| #[trigger]
            contents.common_prefixes.count(prefix) <= 1,
        contents.common_prefixes == joined(
            levels.remote.common_prefixes,
            levels.cache.common_prefixes,
        ).filter(|prefix: Seq<char>| levels.holds(state.deleted, prefix)).to_multiset(),
{
    let found = merged(Map::empty(), levels.remote.objects, state.deleted);
    let objects = merged(found, levels.cache.objects, state.deleted);
    lemma_merged(Map::empty(), levels.remote.objects, state.deleted);
    lemma_merged(found, levels.cache.objects, state.deleted);
    let candidates = joined(levels.remote.common_prefixes, levels.cache.common_prefixes);
    lemma_joined(levels.remote.common_prefixes, levels.cache.common_prefixes);
    let holds = |prefix: Seq<char>| levels.holds(state.deleted, prefix);
    lemma_filter_keeps(candidates, holds);
    let known = DirectoryListingView {
        stage: DirectoryStage::Cache,
        deleted: state.deleted,
        objects,
        candidates,
        visible: Seq::empty(),
    };
    let fuel = 2 * candidates.len();
    lemma_probes_run::<D, E>(known, levels, holds, fuel);
    let shown = candidates.filter(holds);
    assert(known.visible + shown =~= shown);
    let contents = DirectoryContents { objects, common_prefixes: shown.to_multiset() };
    reveal_with_fuel(directory_run, 3);
    assert(directory_run(directory_begun::<S, D, E>(state), levels, fuel + 2) == Some(
        Ok::<DirectoryContents<D>, Error<Seq<char>, E>>(contents),
    ));
    assert forall|prefix: Seq<char>| #[trigger]
        contents.common_prefixes.count(prefix) > 0 <==> levels.holds(state.deleted, prefix) && (
        levels.remote.common_prefixes.contains(prefix) || levels.cache.common_prefixes.contains(
            prefix,
        )) by {
        vstd::seq_lib::to_multiset_contains(shown, prefix);
        assert(shown.contains(prefix) <==> candidates.contains(prefix) && holds(prefix));
    }
    if levels.remote.common_prefixes.no_duplicates() {
        lemma_joined_once(levels.remote.common_prefixes, levels.cache.common_prefixes);
        lemma_filter_once(candidates, holds);
        shown.lemma_multiset_has_no_duplicates();
        assert forall|prefix: Seq<char>| #[trigger] contents.common_prefixes.count(
            prefix,
        ) <= 1 by {
            if contents.common_prefixes.count(prefix) > 0 {
                assert(shown.to_multiset().contains(prefix));
            }
        }
    }
    contents
}

/// A prefix holds something exactly where some visible object lies under it. So a prefix is hidden
/// once every object under it was deleted locally.
pub proof fn law_prefix_holds_visible<S, P, D>(
    state: CacheView<S>,
    world: World<P>,
    levels: Levels<D>,
    prefix: Seq<char>,
)
    requires
        lists((levels.below)(Side::Remote, prefix), world.remote, Some(prefix)),
        lists((levels.below)(Side::Cache, prefix), world.cache, Some(prefix)),
    ensures
        levels.holds(state.deleted, prefix) <==> exists|text: Seq<char>| #[trigger]
            visible(state, world).contains_key(text) && under(Some(prefix), text),
{
    let cached = (levels.below)(Side::Cache, prefix);
    let backed = (levels.below)(Side::Remote, prefix);
    lemma_holds(levels, state.deleted, prefix);
    if any_visible(cached, state.deleted) {
        let i = choose|i: int|
            0 <= i < cached.len() && !state.deleted.contains_key(#[trigger] cached[i]);
        assert(cached.contains(cached[i]));
        assert(visible(state, world).contains_key(cached[i]));
    }
    if any_visible(backed, state.deleted) {
        let i = choose|i: int|
            0 <= i < backed.len() && !state.deleted.contains_key(#[trigger] backed[i]);
        assert(backed.contains(backed[i]));
        assert(visible(state, world).contains_key(backed[i]));
    }
    if exists|text: Seq<char>| #[trigger]
        visible(state, world).contains_key(text) && under(Some(prefix), text) {
        let text = choose|text: Seq<char>| #[trigger]
            visible(state, world).contains_key(text) && under(Some(prefix), text);
        if world.cache.contains_key(text) {
            assert(cached.contains(text));
            let i = choose|i: int| 0 <= i < cached.len() && cached[i] == text;
            assert(!state.deleted.contains_key(cached[i]));
        } else {
            assert(backed.contains(text));
            let i = choose|i: int| 0 <= i < backed.len() && backed[i] == text;
            assert(!state.deleted.contains_key(backed[i]));
        }
    }
}

/// The level is what a store with these objects replies for the prefix: the objects directly under
/// it, and the prefixes one segment below it that lead to other objects.
pub open spec fn is_level<P, D>(
    level: DirectoryView<D>,
    objects: Map<Seq<char>, P>,
    prefix: Option<Seq<char>>,
) -> bool {
    &&& forall|text: Seq<char>| #[trigger]
        names(level.objects).contains(text) <==> objects.contains_key(text) && directly_under(
            prefix,
            text,
        )
    &&& forall|child: Seq<char>| #[trigger]
        level.common_prefixes.contains(child) <==> exists|text: Seq<char>| #[trigger]
            objects.contains_key(text) && leads_to(prefix, child, text)
}

/// The two levels, and what lies below their prefixes, are what stores with these objects reply.
pub open spec fn are_levels<P, D>(
    levels: Levels<D>,
    world: World<P>,
    prefix: Option<Seq<char>>,
) -> bool {
    &&& is_level(levels.remote, world.remote, prefix)
    &&& is_level(levels.cache, world.cache, prefix)
    &&& forall|child: Seq<char>| #[trigger]
        lists((levels.below)(Side::Remote, child), world.remote, Some(child))
    &&& forall|child: Seq<char>| #[trigger]
        lists((levels.below)(Side::Cache, child), world.cache, Some(child))
}

/// A valid path does not begin with a delimiter.
proof fn lemma_no_leading_delimiter(text: Seq<char>)
    requires
        valid_path(text),
        text.len() > 0,
    ensures
        text[0] != '/',
{
    if text[0] == '/' {
        assert(segment_at(text, 0, 0));
        assert(!valid_segment(text.subrange(0, 0)));
    }
}

/// Whatever lies under a prefix that leads to one object is led to by that prefix.
proof fn lemma_leads_to_all(
    prefix: Option<Seq<char>>,
    child: Seq<char>,
    text: Seq<char>,
    other: Seq<char>,
)
    requires
        leads_to(prefix, child, text),
        child.len() > 0,
        under(Some(child), other),
    ensures
        leads_to(prefix, child, other),
{
    let length = child.len() as int;
    assert forall|i: int| 0 <= i < length implies other[i] == text[i] by {
        assert(other.take(length)[i] == child[i]);
        assert(text.take(length)[i] == child[i]);
    }
    if let Some(own) = prefix {
        if own.len() > 0 {
            let end = own.len() as int;
            assert(other.take(end) =~= text.take(end));
        }
    }
}

/// Every location under the prefix lies directly under it, or is led to by one prefix below.
proof fn lemma_direct_or_below(prefix: Option<Seq<char>>, text: Seq<char>) -> (child: Seq<char>)
    requires
        under(prefix, text),
        !directly_under(prefix, text),
    ensures
        leads_to(prefix, child, text),
{
    let from = below(prefix);
    let some = choose|i: int| from <= i < text.len() && text[i] == '/';
    let first = lemma_first_delimiter(text, from, some);
    text.take(first)
}

proof fn lemma_first_delimiter(text: Seq<char>, from: int, some: int) -> (first: int)
    requires
        0 <= from <= some < text.len(),
        text[some] == '/',
    ensures
        from <= first <= some,
        text[first] == '/',
        forall|i: int| from <= i < first ==> text[i] != '/',
    decreases some - from,
{
    if text[from] == '/' {
        from
    } else {
        lemma_first_delimiter(text, from + 1, some)
    }
}

/// One level of a listing shows what a full listing shows of it: its objects are exactly the
/// visible ones directly under the prefix, and its prefixes are exactly those that lead to the
/// other visible objects.
pub proof fn law_listings_agree<S, P, D, E>(
    prefix: Option<Seq<char>>,
    state: CacheView<S>,
    world: World<P>,
    levels: Levels<D>,
    remote: Seq<(Seq<char>, D)>,
    cache: Seq<(Seq<char>, D)>,
) -> (shown: (Map<Seq<char>, D>, DirectoryContents<D>))
    requires
        !state.closed,
        forall|text: Seq<char>| #[trigger] world.remote.contains_key(text) ==> valid_path(text),
        forall|text: Seq<char>| #[trigger] world.cache.contains_key(text) ==> valid_path(text),
        are_levels(levels, world, prefix),
        lists(names(remote), world.remote, prefix),
        lists(names(cache), world.cache, prefix),
    ensures
        listing_ends::<S, D, E>(prefix, state, remote, cache, shown.0),
        exists|fuel: nat| #[trigger]
            directory_run(directory_begun::<S, D, E>(state), levels, fuel) == Some(
                Ok::<DirectoryContents<D>, Error<Seq<char>, E>>(shown.1),
            ),
        forall|text: Seq<char>| #[trigger]
            shown.1.objects.contains_key(text) <==> shown.0.contains_key(text) && directly_under(
                prefix,
                text,
            ),
        forall|child: Seq<char>| #[trigger]
            shown.1.common_prefixes.count(child) > 0 <==> exists|text: Seq<char>| #[trigger]
                shown.0.contains_key(text) && leads_to(prefix, child, text),
        forall|text: Seq<char>| #[trigger]
            shown.0.contains_key(text) <==> visible(state, world).contains_key(text) && under(
                prefix,
                text,
            ),
{
    let objects = law_list_shows_visible::<S, P, D, E>(prefix, state, world, remote, cache);
    let contents = law_list_with_delimiter::<S, D, E>(state, levels);
    assert forall|child: Seq<char>| #[trigger]
        contents.common_prefixes.count(child) > 0 <==> exists|text: Seq<char>| #[trigger]
            objects.contains_key(text) && leads_to(prefix, child, text) by {
        lemma_shown_prefix(prefix, state, world, levels, child);
        if exists|text: Seq<char>| #[trigger]
            visible(state, world).contains_key(text) && leads_to(prefix, child, text) {
            let text = choose|text: Seq<char>| #[trigger]
                visible(state, world).contains_key(text) && leads_to(prefix, child, text);
            assert(objects.contains_key(text));
        }
        if exists|text: Seq<char>| #[trigger]
            objects.contains_key(text) && leads_to(prefix, child, text) {
            let text = choose|text: Seq<char>| #[trigger]
                objects.contains_key(text) && leads_to(prefix, child, text);
            assert(visible(state, world).contains_key(text));
        }
    }
    (objects, contents)
}

proof fn lemma_shown_prefix<S, P, D>(
    prefix: Option<Seq<char>>,
    state: CacheView<S>,
    world: World<P>,
    levels: Levels<D>,
    child: Seq<char>,
)
    requires
        forall|text: Seq<char>| #[trigger] world.remote.contains_key(text) ==> valid_path(text),
        forall|text: Seq<char>| #[trigger] world.cache.contains_key(text) ==> valid_path(text),
        are_levels(levels, world, prefix),
    ensures
        levels.holds(state.deleted, child) && (levels.remote.common_prefixes.contains(child)
            || levels.cache.common_prefixes.contains(child)) <==> exists|text: Seq<char>| #[trigger]
            visible(state, world).contains_key(text) && leads_to(prefix, child, text),
{
    assert(lists((levels.below)(Side::Remote, child), world.remote, Some(child)));
    assert(lists((levels.below)(Side::Cache, child), world.cache, Some(child)));
    law_prefix_holds_visible(state, world, levels, child);
    if levels.holds(state.deleted, child) && (levels.remote.common_prefixes.contains(child)
        || levels.cache.common_prefixes.contains(child)) {
        let witness = if levels.remote.common_prefixes.contains(child) {
            choose|text: Seq<char>| #[trigger]
                world.remote.contains_key(text) && leads_to(prefix, child, text)
        } else {
            choose|text: Seq<char>| #[trigger]
                world.cache.contains_key(text) && leads_to(prefix, child, text)
        };
        assert(leads_to(prefix, child, witness));
        lemma_no_leading_delimiter(witness);
        let other = choose|text: Seq<char>| #[trigger]
            visible(state, world).contains_key(text) && under(Some(child), text);
        lemma_leads_to_all(prefix, child, witness, other);
        assert(visible(state, world).contains_key(other) && leads_to(prefix, child, other));
    }
    if exists|text: Seq<char>| #[trigger]
        visible(state, world).contains_key(text) && leads_to(prefix, child, text) {
        let text = choose|text: Seq<char>| #[trigger]
            visible(state, world).contains_key(text) && leads_to(prefix, child, text);
        assert(under(Some(child), text));
        if world.cache.contains_key(text) {
            assert(levels.cache.common_prefixes.contains(child));
        } else {
            assert(levels.remote.common_prefixes.contains(child));
        }
    }
}

/// Nothing under the prefix is left out of one level and of the prefixes that it names.
pub proof fn law_level_leads_everywhere(prefix: Option<Seq<char>>, text: Seq<char>)
    requires
        under(prefix, text),
    ensures
        directly_under(prefix, text) || exists|child: Seq<char>| #[trigger]
            leads_to(prefix, child, text),
        !(directly_under(prefix, text) && exists|child: Seq<char>| #[trigger]
            leads_to(prefix, child, text)),
{
    if !directly_under(prefix, text) {
        let child = lemma_direct_or_below(prefix, text);
        assert(leads_to(prefix, child, text));
    } else if exists|child: Seq<char>| #[trigger] leads_to(prefix, child, text) {
        let child = choose|child: Seq<char>| #[trigger] leads_to(prefix, child, text);
        assert(text[child.len() as int] == '/');
    }
}

/// The failure of a store is the failure of the listing, at once and with that error.
pub proof fn law_listing_failure_is_handed_on<D, E>(
    listing: ListingView<D>,
    directory: DirectoryListingView<D>,
    fault: StoreError<E>,
)
    ensures
        listing.step::<E>(Err(fault)) == ListingProgress::<
            ListingView<D>,
            Seq<char>,
            Map<Seq<char>, D>,
            E,
        >::Finish(Err(Error::Store(fault))),
        directory.step::<E>(DirectoryReply::Fault(fault)) == ListingProgress::<
            DirectoryListingView<D>,
            Seq<char>,
            DirectoryContents<D>,
            E,
        >::Finish(Err(Error::Store(fault))),
{
}

/// A listing begins with the backing store, and with the deletions as they stand. A closed cache
/// refuses it.
pub proof fn law_listing_opens<S, D, E>(prefix: Option<Seq<char>>, state: CacheView<S>)
    ensures
        ({
            let refusal = Error::<Seq<char>, E>::Generic {
                store: "LocalCacheObjectStore",
                source: "local cache is closed",
            };
            &&& match listing_begun::<S, D, E>(prefix, state) {
                Progress::Finish(result) => state.closed && result == Err::<
                    Map<Seq<char>, D>,
                    Error<Seq<char>, E>,
                >(refusal),
                Progress::Ask(listing, call) => {
                    &&& !state.closed
                    &&& listing.deleted == state.deleted
                    &&& listing.prefix == prefix
                    &&& call == Call::<Seq<char>, ()>::List(Side::Remote, prefix)
                },
            }
            &&& match directory_begun::<S, D, E>(state) {
                Progress::Finish(result) => state.closed && result == Err::<
                    DirectoryContents<D>,
                    Error<Seq<char>, E>,
                >(refusal),
                Progress::Ask(listing, call) => {
                    &&& !state.closed
                    &&& listing.deleted == state.deleted
                    &&& call == Call::<Seq<char>, ()>::Forward(Side::Remote)
                },
            }
        }),
{
}

/// Which replies a listing of one level can be advanced by: the failure of the call, or else what
/// the call gives.
pub proof fn law_directory_awaits<D, R, O, E>(
    directory: DirectoryListingView<D>,
    reply: DirectoryReply<R, O, E>,
)
    ensures
        directory.awaits(reply) <==> match reply {
            DirectoryReply::Fault(_) => true,
            DirectoryReply::Level(_) => directory.stage == DirectoryStage::Remote
                || directory.stage == DirectoryStage::Cache,
            DirectoryReply::Objects(_) => directory.stage == DirectoryStage::ProbingCache
                || directory.stage == DirectoryStage::ProbingRemote,
        },
{
}

proof fn lemma_holds<D>(levels: Levels<D>, deleted: Map<Seq<char>, u64>, prefix: Seq<char>)
    ensures
        levels.holds(deleted, prefix) == (any_visible(
            (levels.below)(Side::Cache, prefix),
            deleted,
        ) || any_visible((levels.below)(Side::Remote, prefix), deleted)),
{
    let cached = (levels.below)(Side::Cache, prefix);
    let backed = (levels.below)(Side::Remote, prefix);
    if any_visible(cached, deleted) {
        let i = choose|i: int| 0 <= i < cached.len() && !deleted.contains_key(#[trigger] cached[i]);
        assert(cached.contains(cached[i]));
    }
    if any_visible(backed, deleted) {
        let i = choose|i: int| 0 <= i < backed.len() && !deleted.contains_key(#[trigger] backed[i]);
        assert(backed.contains(backed[i]));
    }
    if levels.holds(deleted, prefix) {
        let text = choose|text: Seq<char>|
            !(#[trigger] deleted.contains_key(text)) && (cached.contains(text) || backed.contains(
                text,
            ));
        if cached.contains(text) {
            let i = choose|i: int| 0 <= i < cached.len() && cached[i] == text;
            assert(!deleted.contains_key(cached[i]));
        } else {
            let i = choose|i: int| 0 <= i < backed.len() && backed[i] == text;
            assert(!deleted.contains_key(backed[i]));
        }
    }
}

} // verus!
