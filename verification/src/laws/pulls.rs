//! What a pull amounts to.

use crate::laws::sequences::{lemma_filter_keeps, lemma_first_or_rest};
use crate::laws::world::{
    agree_at, consistent, lists, lists_all, sync_answered, under, visible, Lister, World,
};
use crate::local_cache::CacheView;
use crate::protocol::{changes, Call, Error, Progress, Side, SyncReply};
use crate::pull::{pull_begun, PullProgress, PullStage, PullView};
use vstd::prelude::*;

verus! {

/// What is left of a pull that ran: the stores and the result.
#[verifier::ext_equal]
pub struct PullEnded<P, E> {
    pub world: World<P>,
    pub result: Result<(), Error<Seq<char>, E>>,
}

/// Runs the pull until it is over, for as many calls as there is fuel.
pub open spec fn pull_run<S, P, E>(
    progress: PullProgress<PullView, Seq<char>, P, E>,
    state: CacheView<S>,
    world: World<P>,
    lister: Lister<P>,
    missing: E,
    fuel: nat,
) -> Option<PullEnded<P, E>>
    decreases fuel,
{
    match progress {
        Progress::Finish(result) => Some(PullEnded { world, result }),
        Progress::Ask(pull, call) => if fuel == 0 {
            None
        } else {
            let (next_world, reply) = sync_answered(world, lister, missing, call);
            pull_run(
                pull.step(state, reply),
                state,
                next_world,
                lister,
                missing,
                (fuel - 1) as nat,
            )
        },
    }
}

/// The pull ends so.
pub open spec fn pull_ends<S, P, E>(
    progress: PullProgress<PullView, Seq<char>, P, E>,
    state: CacheView<S>,
    world: World<P>,
    lister: Lister<P>,
    missing: E,
    ended: PullEnded<P, E>,
) -> bool {
    exists|fuel: nat| #[trigger]
        pull_run(progress, state, world, lister, missing, fuel) == Some(ended)
}

proof fn lemma_more_fuel<S, P, E>(
    progress: PullProgress<PullView, Seq<char>, P, E>,
    state: CacheView<S>,
    world: World<P>,
    lister: Lister<P>,
    missing: E,
    fuel: nat,
    more: nat,
)
    requires
        pull_run(progress, state, world, lister, missing, fuel) is Some,
        fuel <= more,
    ensures
        pull_run(progress, state, world, lister, missing, more) == pull_run(
            progress,
            state,
            world,
            lister,
            missing,
            fuel,
        ),
    decreases fuel,
{
    if let Progress::Ask(pull, call) = progress {
        let (next_world, reply) = sync_answered(world, lister, missing, call);
        lemma_more_fuel(
            pull.step(state, reply),
            state,
            next_world,
            lister,
            missing,
            (fuel - 1) as nat,
            (more - 1) as nat,
        );
    }
}

/// A pull ends in one way only.
pub proof fn law_pull_ends_one_way<S, P, E>(
    progress: PullProgress<PullView, Seq<char>, P, E>,
    state: CacheView<S>,
    world: World<P>,
    lister: Lister<P>,
    missing: E,
    a: PullEnded<P, E>,
    b: PullEnded<P, E>,
)
    requires
        pull_ends(progress, state, world, lister, missing, a),
        pull_ends(progress, state, world, lister, missing, b),
    ensures
        a == b,
{
    let fuel_a = choose|fuel: nat| #[trigger]
        pull_run(progress, state, world, lister, missing, fuel) == Some(a);
    let fuel_b = choose|fuel: nat| #[trigger]
        pull_run(progress, state, world, lister, missing, fuel) == Some(b);
    if fuel_a <= fuel_b {
        lemma_more_fuel(progress, state, world, lister, missing, fuel_a, fuel_b);
    } else {
        lemma_more_fuel(progress, state, world, lister, missing, fuel_b, fuel_a);
    }
}

/// The cache once some objects of the backing store were copied into it.
spec fn refreshed<P>(world: World<P>, todo: Seq<Seq<char>>) -> World<P> {
    World {
        cache: Map::new(
            |text: Seq<char>| world.cache.contains_key(text) || todo.contains(text),
            |text: Seq<char>|
                if todo.contains(text) {
                    world.remote[text]
                } else {
                    world.cache[text]
                },
        ),
        ..world
    }
}

/// The cache once some of its objects were deleted.
spec fn pruned<P>(world: World<P>, todo: Seq<Seq<char>>) -> World<P> {
    World {
        cache: Map::new(
            |text: Seq<char>| world.cache.contains_key(text) && !todo.contains(text),
            |text: Seq<char>| world.cache[text],
        ),
        ..world
    }
}

/// The pull once it has refreshed what it set out to.
spec fn done_refreshing(pull: PullView) -> PullView {
    PullView { stage: PullStage::ListingCache, todo: Seq::empty(), ..pull }
}

proof fn lemma_refresh_runs<S, P, E>(
    pull: PullView,
    state: CacheView<S>,
    world: World<P>,
    lister: Lister<P>,
    missing: E,
    fuel: nat,
)
    requires
        forall|text: Seq<char>| #[trigger]
            pull.todo.contains(text) ==> world.remote.contains_key(text),
    ensures
        pull_run(
            pull.refresh::<P, E>(),
            state,
            world,
            lister,
            missing,
            2 * pull.todo.len() + fuel,
        ) == pull_run(
            done_refreshing(pull).refresh::<P, E>(),
            state,
            refreshed(world, pull.todo),
            lister,
            missing,
            fuel,
        ),
    decreases pull.todo.len(),
{
    if pull.todo.len() > 0 {
        reveal_with_fuel(pull_run, 3);
        lemma_first_or_rest(pull.todo);
        let text = pull.todo[0];
        let rest = PullView { stage: PullStage::Storing, ..pull }.rest();
        let next = World { cache: world.cache.insert(text, world.remote[text]), ..world };
        assert(pull.todo.contains(text));
        lemma_refresh_runs::<S, P, E>(rest, state, next, lister, missing, fuel);
        assert(refreshed(next, rest.todo) =~= refreshed(world, pull.todo));
        assert(done_refreshing(rest) =~= done_refreshing(pull));
    } else {
        assert(refreshed(world, pull.todo) =~= world);
        assert(pull.todo =~= Seq::<Seq<char>>::empty());
    }
}

proof fn lemma_prune_runs<S, P, E>(
    pull: PullView,
    state: CacheView<S>,
    world: World<P>,
    lister: Lister<P>,
    missing: E,
)
    ensures
        pull_run(pull.prune::<P, E>(), state, world, lister, missing, pull.todo.len()) == Some(
            PullEnded::<P, E> { world: pruned(world, pull.todo), result: Ok(()) },
        ),
    decreases pull.todo.len(),
{
    if pull.todo.len() > 0 {
        lemma_first_or_rest(pull.todo);
        let text = pull.todo[0];
        let rest = PullView { stage: PullStage::Pruning, ..pull }.rest();
        let next = World { cache: world.cache.remove(text), ..world };
        lemma_prune_runs::<S, P, E>(rest, state, next, lister, missing);
        assert(pruned(next, rest.todo) =~= pruned(world, pull.todo));
        assert(world.cache.remove(text) =~= world.cache || world.cache.contains_key(text));
    } else {
        assert(pruned(world, pull.todo) =~= world);
    }
}

/// The location was neither written nor deleted locally since it was last committed.
pub open spec fn untouched<S>(state: CacheView<S>, text: Seq<char>) -> bool {
    !state.dirty.contains_key(text) && !state.deleted.contains_key(text)
}

/// The objects that the cache holds after a pull: under the prefix, and apart from local changes,
/// those of the backing store.
pub open spec fn pulled<S, P>(state: CacheView<S>, world: World<P>) -> Map<Seq<char>, P> {
    Map::new(
        |text: Seq<char>|
            if under(state.sync_prefix, text) && untouched(state, text) {
                world.remote.contains_key(text)
            } else {
                world.cache.contains_key(text)
            },
        |text: Seq<char>|
            if under(state.sync_prefix, text) && untouched(state, text) {
                world.remote[text]
            } else {
                world.cache[text]
            },
    )
}

/// A pull brings the cache in line with the backing store: under the prefix, each location that
/// was not changed locally holds afterwards what the backing store holds there, and nothing where
/// that holds nothing. Local changes and what lies outside of the prefix stay as they were, and so
/// does the backing store. A second pull would find nothing to do.
pub proof fn law_pull<S, P, E>(
    state: CacheView<S>,
    world: World<P>,
    lister: Lister<P>,
    missing: E,
) -> (ended: PullEnded<P, E>)
    requires
        !state.closed,
        world.remote.dom().finite(),
        world.cache.dom().finite(),
        lists_all(lister),
    ensures
        pull_ends(pull_begun(state), state, world, lister, missing, ended),
        ended.result == Ok::<(), Error<Seq<char>, E>>(()),
        ended.world == (World { cache: pulled(state, world), ..world }),
        pulled(state, ended.world) == ended.world.cache,
        consistent(state, world) ==> consistent(state, ended.world),
        forall|text: Seq<char>|
            under(state.sync_prefix, text) && untouched(state, text) ==> #[trigger] agree_at(
                visible(state, ended.world),
                world.remote,
                text,
            ),
        forall|text: Seq<char>|
            !under(state.sync_prefix, text) || !untouched(state, text) ==> #[trigger] agree_at(
                visible(state, ended.world),
                visible(state, world),
                text,
            ),
{
    reveal_with_fuel(pull_run, 2);
    let prefix = state.sync_prefix;
    let first = PullView {
        prefix,
        stage: PullStage::ListingRemote,
        todo: Seq::empty(),
        kept: Set::empty(),
    };
    let listed = lister(world.remote, prefix);
    assert(lists(listed, world.remote, prefix));
    let informed = first.informed(state, listed);
    let clean = |text: Seq<char>| !state.is_changed(text);
    lemma_filter_keeps(listed, clean);
    assert(informed.todo == listed.filter(clean));
    let middle = refreshed(world, informed.todo);
    assert(middle.cache.dom() =~= world.cache.dom().union(informed.todo.to_set()));
    vstd::seq_lib::seq_to_set_is_finite(informed.todo);
    let found = lister(middle.cache, prefix);
    assert(lists(found, middle.cache, prefix));
    let confronted = done_refreshing(informed).confronted(found);
    let stale = |text: Seq<char>| !informed.kept.contains(text);
    lemma_filter_keeps(found, stale);
    assert(confronted.todo == found.filter(stale));
    let fuel = confronted.todo.len() + 1;
    lemma_refresh_runs::<S, P, E>(informed, state, world, lister, missing, fuel);
    lemma_prune_runs::<S, P, E>(confronted, state, middle, lister, missing);
    let left = pruned(middle, confronted.todo);
    assert(left.cache =~= pulled(state, world));
    let ended = PullEnded::<P, E> {
        world: World { cache: pulled(state, world), ..world },
        result: Ok(()),
    };
    assert(pull_run(
        pull_begun(state),
        state,
        world,
        lister,
        missing,
        2 * informed.todo.len() + fuel + 1,
    ) == Some(ended));
    ended
}

/// A pull asks the backing store for listings and objects, and changes the cache alone. It writes
/// what it read.
pub proof fn law_pull_leaves_remote<S, P, E>(
    pull: PullView,
    state: CacheView<S>,
    reply: SyncReply<Seq<Seq<char>>, P, E>,
)
    requires
        pull.awaits(reply),
    ensures
        match pull.step(state, reply) {
            Progress::Finish(_) => true,
            Progress::Ask(_, call) => {
                &&& !changes(call, Side::Remote)
                &&& call matches Call::Store(_, _, payload) ==> reply == SyncReply::<
                    Seq<Seq<char>>,
                    P,
                    E,
                >::Payload(payload)
            },
        },
{
}

} // verus!
