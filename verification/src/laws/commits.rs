//! What a commit amounts to.

use crate::commit::{
    commit_begun, in_upload_order, lists_keys, uploads_before, CommitProgress, CommitStage,
    CommitView,
};
use crate::laws::sequences::lemma_first_or_rest;
use crate::laws::world::{consistent, holds_writes, sync_answered, visible, Lister, World};
use crate::local_cache::{commit_rank, CacheView};
use crate::location_map::without_shared;
use crate::protocol::{changes, Call, Error, Progress, Side, SyncReply};
use crate::text::{lemma_precedes_asymmetric, precedes};
use vstd::prelude::*;

verus! {

/// What is left of a commit that ran: the state of the cache, the stores and the result.
#[verifier::ext_equal]
pub struct CommitEnded<S, P, E> {
    pub state: CacheView<S>,
    pub world: World<P>,
    pub result: Result<(), Error<Seq<char>, E>>,
}

/// Runs the commit until it is over, for as many calls as there is fuel.
pub open spec fn commit_run<S, P, E>(
    progress: CommitProgress<CommitView, Seq<char>, P, E>,
    state: CacheView<S>,
    world: World<P>,
    lister: Lister<P>,
    missing: E,
    fuel: nat,
) -> Option<CommitEnded<S, P, E>>
    decreases fuel,
{
    match progress {
        Progress::Finish(result) => Some(CommitEnded { state, world, result }),
        Progress::Ask(commit, call) => if fuel == 0 {
            None
        } else {
            let (next_world, reply) = sync_answered(world, lister, missing, call);
            let (next_state, next) = commit.step(state, reply);
            commit_run(next, next_state, next_world, lister, missing, (fuel - 1) as nat)
        },
    }
}

/// The commit ends so.
pub open spec fn commit_ends<S, P, E>(
    progress: CommitProgress<CommitView, Seq<char>, P, E>,
    state: CacheView<S>,
    world: World<P>,
    lister: Lister<P>,
    missing: E,
    ended: CommitEnded<S, P, E>,
) -> bool {
    exists|fuel: nat| #[trigger]
        commit_run(progress, state, world, lister, missing, fuel) == Some(ended)
}

/// The objects of the backing store once some were uploaded and then some deleted.
spec fn brought<P>(
    world: World<P>,
    uploads: Seq<Seq<char>>,
    deletes: Seq<Seq<char>>,
) -> Map<Seq<char>, P> {
    Map::new(
        |text: Seq<char>|
            (world.remote.contains_key(text) || uploads.contains(text)) && !deletes.contains(text),
        |text: Seq<char>|
            if uploads.contains(text) {
                world.cache[text]
            } else {
                world.remote[text]
            },
    )
}

proof fn lemma_commit_runs<S, P, E>(
    plan: CommitView,
    state: CacheView<S>,
    world: World<P>,
    lister: Lister<P>,
    missing: E,
)
    requires
        forall|text: Seq<char>| #[trigger]
            plan.uploads.contains(text) ==> world.cache.contains_key(text),
    ensures
        ({
            let (first_state, first) = plan.go::<S, P, E>(state);
            let fuel = 2 * plan.uploads.len() + plan.deletes.len();
            commit_run(first, first_state, world, lister, missing, fuel) == Some(
                CommitEnded::<S, P, E> {
                    state: state.committed(plan.dirty, plan.deleted),
                    world: World { remote: brought(world, plan.uploads, plan.deletes), ..world },
                    result: Ok(()),
                },
            )
        }),
    decreases plan.uploads.len() + plan.deletes.len(),
{
    reveal_with_fuel(commit_run, 3);
    if plan.uploads.len() > 0 {
        lemma_first_or_rest(plan.uploads);
        let text = plan.uploads[0];
        let rest = plan.without_upload();
        let next = World { remote: world.remote.insert(text, world.cache[text]), ..world };
        assert(plan.uploads.contains(text));
        lemma_commit_runs(rest, state, next, lister, missing);
        assert(brought(next, rest.uploads, rest.deletes) =~= brought(
            world,
            plan.uploads,
            plan.deletes,
        ));
        let storing = CommitView { stage: CommitStage::Storing, ..plan };
        assert(storing.without_upload().go::<S, P, E>(state) == rest.go::<S, P, E>(state));
    } else if plan.deletes.len() > 0 {
        lemma_first_or_rest(plan.deletes);
        let text = plan.deletes[0];
        let rest = plan.without_delete();
        let next = World { remote: world.remote.remove(text), ..world };
        lemma_commit_runs(rest, state, next, lister, missing);
        assert(brought(next, rest.uploads, rest.deletes) =~= brought(
            world,
            plan.uploads,
            plan.deletes,
        ));
        assert(world.remote.remove(text) =~= world.remote || world.remote.contains_key(text));
        let deleting = CommitView { stage: CommitStage::Deleting, ..plan };
        assert(deleting.without_delete().go::<S, P, E>(state) == rest.go::<S, P, E>(state));
    } else {
        assert(brought(world, plan.uploads, plan.deletes) =~= world.remote);
    }
}

/// The objects of the backing store with every local change applied to them.
pub open spec fn published<S, P>(state: CacheView<S>, world: World<P>) -> Map<Seq<char>, P> {
    Map::new(
        |text: Seq<char>|
            state.dirty.contains_key(text) || (world.remote.contains_key(text)
                && !state.deleted.contains_key(text)),
        |text: Seq<char>|
            if state.dirty.contains_key(text) {
                world.cache[text]
            } else {
                world.remote[text]
            },
    )
}

/// A commit brings every local change to the backing store and nothing else: what was written
/// locally is uploaded, and what was deleted locally is deleted. It leaves no change to be
/// committed, and what is visible stays as it was, where the cache holds nothing that was deleted
/// locally.
pub proof fn law_commit<S, P, E>(
    state: CacheView<S>,
    world: World<P>,
    lister: Lister<P>,
    missing: E,
    after: CacheView<S>,
    progress: CommitProgress<CommitView, Seq<char>, P, E>,
) -> (ended: CommitEnded<S, P, E>)
    requires
        !state.closed,
        state.wf(),
        holds_writes(state, world),
        commit_begun(state, after, progress),
    ensures
        commit_ends(progress, after, world, lister, missing, ended),
        ended.result == Ok::<(), Error<Seq<char>, E>>(()),
        ended.state == (CacheView { dirty: Map::empty(), deleted: Map::empty(), ..state }),
        ended.world == (World { remote: published(state, world), ..world }),
        consistent(state, world) ==> visible(ended.state, ended.world) == visible(state, world),
        consistent(ended.state, ended.world),
{
    let plan = choose|plan: CommitView| #[trigger]
        plan.plans(state) && (after, progress) == plan.go::<S, P, E>(state);
    lemma_commit_runs::<S, P, E>(plan, state, world, lister, missing);
    assert(brought(world, plan.uploads, plan.deletes) =~= published(state, world)) by {
        assert(lists_keys(plan.uploads, state.dirty));
        assert(lists_keys(plan.deletes, state.deleted));
    }
    if consistent(state, world) {
        let left = CacheView::<S> { dirty: Map::empty(), deleted: Map::empty(), ..state };
        let stores = World { remote: published(state, world), ..world };
        assert(visible(left, stores) =~= visible(state, world));
    }
    assert(without_shared(state.dirty, state.dirty) =~= Map::empty());
    assert(without_shared(state.deleted, state.deleted) =~= Map::empty());
    let ended = CommitEnded::<S, P, E> {
        state: CacheView { dirty: Map::empty(), deleted: Map::empty(), ..state },
        world: World { remote: published(state, world), ..world },
        result: Ok(()),
    };
    let fuel = 2 * plan.uploads.len() + plan.deletes.len();
    assert(commit_run(progress, after, world, lister, missing, fuel) == Some(ended));
    ended
}

/// A commit without local changes is over at once, without a call.
pub proof fn law_nothing_to_commit<S, P, E>(
    state: CacheView<S>,
    after: CacheView<S>,
    progress: CommitProgress<CommitView, Seq<char>, P, E>,
)
    requires
        !state.closed,
        state.dirty == Map::<Seq<char>, u64>::empty(),
        state.deleted == Map::<Seq<char>, u64>::empty(),
        commit_begun(state, after, progress),
    ensures
        after == state,
        progress == CommitProgress::<CommitView, Seq<char>, P, E>::Finish(Ok(())),
{
    let plan = choose|plan: CommitView| #[trigger]
        plan.plans(state) && (after, progress) == plan.go::<S, P, E>(state);
    if plan.uploads.len() > 0 {
        assert(plan.uploads.contains(plan.uploads[0]));
    }
    if plan.deletes.len() > 0 {
        assert(plan.deletes.contains(plan.deletes[0]));
    }
    assert(state.committed(plan.dirty, plan.deleted) =~= state);
}

proof fn lemma_more_fuel<S, P, E>(
    progress: CommitProgress<CommitView, Seq<char>, P, E>,
    state: CacheView<S>,
    world: World<P>,
    lister: Lister<P>,
    missing: E,
    fuel: nat,
    more: nat,
)
    requires
        commit_run(progress, state, world, lister, missing, fuel) is Some,
        fuel <= more,
    ensures
        commit_run(progress, state, world, lister, missing, more) == commit_run(
            progress,
            state,
            world,
            lister,
            missing,
            fuel,
        ),
    decreases fuel,
{
    if let Progress::Ask(commit, call) = progress {
        let (next_world, reply) = sync_answered(world, lister, missing, call);
        let (next_state, next) = commit.step(state, reply);
        lemma_more_fuel(
            next,
            next_state,
            next_world,
            lister,
            missing,
            (fuel - 1) as nat,
            (more - 1) as nat,
        );
    }
}

/// A commit ends in one way only.
pub proof fn law_commit_ends_one_way<S, P, E>(
    progress: CommitProgress<CommitView, Seq<char>, P, E>,
    state: CacheView<S>,
    world: World<P>,
    lister: Lister<P>,
    missing: E,
    a: CommitEnded<S, P, E>,
    b: CommitEnded<S, P, E>,
)
    requires
        commit_ends(progress, state, world, lister, missing, a),
        commit_ends(progress, state, world, lister, missing, b),
    ensures
        a == b,
{
    let fuel_a = choose|fuel: nat| #[trigger]
        commit_run(progress, state, world, lister, missing, fuel) == Some(a);
    let fuel_b = choose|fuel: nat| #[trigger]
        commit_run(progress, state, world, lister, missing, fuel) == Some(b);
    if fuel_a <= fuel_b {
        lemma_more_fuel(progress, state, world, lister, missing, fuel_a, fuel_b);
    } else {
        lemma_more_fuel(progress, state, world, lister, missing, fuel_b, fuel_a);
    }
}

/// The sequence is in the order.
spec fn ordered(sequence: Seq<Seq<char>>, before: spec_fn(Seq<char>, Seq<char>) -> bool) -> bool {
    forall|i: int, j: int|
        0 <= i < j < sequence.len() ==> before(#[trigger] sequence[i], #[trigger] sequence[j])
}

proof fn lemma_one_order(
    a: Seq<Seq<char>>,
    b: Seq<Seq<char>>,
    before: spec_fn(Seq<char>, Seq<char>) -> bool,
)
    requires
        ordered(a, before),
        ordered(b, before),
        forall|x: Seq<char>, y: Seq<char>| #[trigger] before(x, y) ==> !before(y, x),
        forall|text: Seq<char>| #[trigger] a.contains(text) <==> b.contains(text),
    ensures
        a == b,
    decreases a.len(),
{
    if a.len() == 0 {
        if b.len() > 0 {
            assert(b.contains(b[0]));
            assert(a.contains(b[0]));
        }
        assert(a =~= b);
    } else {
        assert(a.contains(a[0]));
        assert(b.contains(a[0]));
        assert(b.contains(b[0]));
        assert(a.contains(b[0]));
        let j = choose|j: int| 0 <= j < b.len() && b[j] == a[0];
        let i = choose|i: int| 0 <= i < a.len() && a[i] == b[0];
        if j > 0 {
            assert(before(b[0], b[j]));
            if i > 0 {
                assert(before(a[0], a[i]));
            }
        }
        lemma_first_or_rest(a);
        lemma_first_or_rest(b);
        let rest_a = a.drop_first();
        let rest_b = b.drop_first();
        assert(!rest_a.contains(a[0])) by {
            if rest_a.contains(a[0]) {
                let k = choose|k: int| 0 <= k < rest_a.len() && rest_a[k] == a[0];
                assert(before(a[0], a[k + 1]));
            }
        }
        assert(!rest_b.contains(b[0])) by {
            if rest_b.contains(b[0]) {
                let k = choose|k: int| 0 <= k < rest_b.len() && rest_b[k] == b[0];
                assert(before(b[0], b[k + 1]));
            }
        }
        assert forall|text: Seq<char>| #[trigger]
            rest_a.contains(text) <==> rest_b.contains(text) by {
            assert(a.contains(text) <==> b.contains(text));
        }
        lemma_one_order(rest_a, rest_b, before);
        assert(a =~= seq![a[0]] + rest_a);
        assert(b =~= seq![b[0]] + rest_b);
    }
}

/// What a commit does is settled by the local changes: there is one order to upload them in, and
/// one to delete them in.
pub proof fn law_one_plan<S>(state: CacheView<S>, a: CommitView, b: CommitView)
    requires
        a.plans(state),
        b.plans(state),
    ensures
        a == b,
{
    let turn = |x: Seq<char>, y: Seq<char>| uploads_before(x, y);
    let alphabet = |x: Seq<char>, y: Seq<char>| precedes(x, y);
    assert forall|x: Seq<char>, y: Seq<char>| #[trigger] turn(x, y) implies !turn(y, x) by {
        if uploads_before(y, x) {
            lemma_precedes_asymmetric(x, y);
        }
    }
    assert forall|x: Seq<char>, y: Seq<char>| #[trigger] alphabet(x, y) implies !alphabet(y, x) by {
        lemma_precedes_asymmetric(x, y);
    }
    assert forall|text: Seq<char>| #[trigger]
        a.uploads.contains(text) <==> b.uploads.contains(text) by {
        assert(a.uploads.contains(text) <==> state.dirty.contains_key(text));
        assert(b.uploads.contains(text) <==> state.dirty.contains_key(text));
    }
    assert forall|text: Seq<char>| #[trigger]
        a.deletes.contains(text) <==> b.deletes.contains(text) by {
        assert(a.deletes.contains(text) <==> state.deleted.contains_key(text));
        assert(b.deletes.contains(text) <==> state.deleted.contains_key(text));
    }
    lemma_one_order(a.uploads, b.uploads, turn);
    lemma_one_order(a.deletes, b.deletes, alphabet);
}

/// The locations that are uploaded by the calls of the commit, in turn, where the stores reply so.
/// The commit may be cut short.
pub open spec fn uploaded<S, O, P, E>(
    progress: CommitProgress<CommitView, Seq<char>, P, E>,
    state: CacheView<S>,
    replies: Seq<SyncReply<O, P, E>>,
) -> Seq<Seq<char>>
    decreases replies.len(),
{
    match progress {
        Progress::Finish(_) => Seq::empty(),
        Progress::Ask(commit, call) => {
            let here = match call {
                Call::Store(Side::Remote, text, _) => seq![text],
                _ => Seq::empty(),
            };
            if replies.len() == 0 || !commit.awaits(replies[0]) {
                here
            } else {
                let (next_state, next) = commit.step(state, replies[0]);
                here + uploaded(next, next_state, replies.drop_first())
            }
        },
    }
}

/// The call is the one that the stage of the commit says.
spec fn on_course<P, E>(progress: CommitProgress<CommitView, Seq<char>, P, E>) -> bool {
    match progress {
        Progress::Finish(_) => true,
        Progress::Ask(commit, call) => match commit.stage {
            CommitStage::Fetching => commit.uploads.len() > 0 && call == Call::<
                Seq<char>,
                P,
            >::Fetch(Side::Cache, commit.uploads[0]),
            CommitStage::Storing => commit.uploads.len() > 0 && call is Store && call->Store_0
                == Side::Remote && call->Store_1 == commit.uploads[0],
            CommitStage::Deleting => commit.uploads.len() == 0 && call is Delete,
        },
    }
}

/// The locations still to be uploaded.
spec fn outstanding<P, E>(progress: CommitProgress<CommitView, Seq<char>, P, E>) -> Seq<Seq<char>> {
    match progress {
        Progress::Finish(_) => Seq::empty(),
        Progress::Ask(commit, _) => commit.uploads,
    }
}

proof fn lemma_uploaded_in_turn<S, O, P, E>(
    progress: CommitProgress<CommitView, Seq<char>, P, E>,
    state: CacheView<S>,
    replies: Seq<SyncReply<O, P, E>>,
)
    requires
        on_course(progress),
    ensures
        uploaded(progress, state, replies).is_prefix_of(outstanding(progress)),
    decreases replies.len(),
{
    if let Progress::Ask(commit, call) = progress {
        if replies.len() > 0 && commit.awaits(replies[0]) {
            let (next_state, next) = commit.step(state, replies[0]);
            lemma_uploaded_in_turn(next, next_state, replies.drop_first());
        }
    }
}

/// However the stores reply, and wherever a commit is cut short, it uploads what was written
/// locally turn by turn: payload, then metadata, and what publishes them last. A file is uploaded
/// only after every file of an earlier turn.
pub proof fn law_uploads_in_turn<S, O, P, E>(
    state: CacheView<S>,
    after: CacheView<S>,
    progress: CommitProgress<CommitView, Seq<char>, P, E>,
    replies: Seq<SyncReply<O, P, E>>,
)
    requires
        !state.closed,
        commit_begun(state, after, progress),
    ensures
        ({
            let sent = uploaded(progress, after, replies);
            &&& in_upload_order(sent)
            &&& forall|text: Seq<char>| #[trigger]
                sent.contains(text) ==> state.dirty.contains_key(text)
            &&& forall|i: int, text: Seq<char>|
                0 <= i < sent.len() && #[trigger] state.dirty.contains_key(text) && commit_rank(
                    text,
                ) < commit_rank(#[trigger] sent[i]) ==> sent.take(i).contains(text)
        }),
{
    let plan = choose|plan: CommitView| #[trigger]
        plan.plans(state) && (after, progress) == plan.go::<S, P, E>(state);
    let sent = uploaded(progress, after, replies);
    lemma_uploaded_in_turn(progress, after, replies);
    assert(sent.is_prefix_of(plan.uploads));
    assert forall|i: int| 0 <= i < sent.len() implies #[trigger] sent[i] == plan.uploads[i] by {}
    assert forall|text: Seq<char>| #[trigger]
        sent.contains(text) implies state.dirty.contains_key(text) by {
        let i = choose|i: int| 0 <= i < sent.len() && sent[i] == text;
        assert(plan.uploads[i] == text);
        assert(plan.uploads.contains(text));
    }
    assert forall|i: int, text: Seq<char>|
        0 <= i < sent.len() && #[trigger] state.dirty.contains_key(text) && commit_rank(text)
            < commit_rank(#[trigger] sent[i]) implies sent.take(i).contains(text) by {
        assert(plan.uploads.contains(text));
        let j = choose|j: int| 0 <= j < plan.uploads.len() && plan.uploads[j] == text;
        if i < j {
            assert(uploads_before(plan.uploads[i], plan.uploads[j]));
        }
        assert(sent.take(i)[j] == text);
    }
}

/// A commit reads from the cache and changes the backing store alone. It uploads what it read, and
/// deletes nothing before everything is uploaded.
pub proof fn law_commit_leaves_cache<S, O, P, E>(
    commit: CommitView,
    state: CacheView<S>,
    reply: SyncReply<O, P, E>,
)
    requires
        commit.awaits(reply),
    ensures
        match commit.step(state, reply).1 {
            Progress::Finish(_) => true,
            Progress::Ask(next, call) => {
                &&& !changes(call, Side::Cache)
                &&& call is Delete ==> next.uploads.len() == 0
                &&& call matches Call::Store(_, _, payload) ==> reply == SyncReply::<
                    O,
                    P,
                    E,
                >::Payload(payload)
            },
        },
{
}

/// A commit that fails forgets no change: whatever it did not bring to the backing store is
/// committed the next time.
pub proof fn law_failed_commit_forgets_nothing<S, O, P, E>(
    commit: CommitView,
    state: CacheView<S>,
    reply: SyncReply<O, P, E>,
)
    requires
        commit.step(state, reply).1 != CommitProgress::<CommitView, Seq<char>, P, E>::Finish(
            Ok(()),
        ),
    ensures
        commit.step(state, reply).0 == state,
{
}

/// A commit carries the changes that were there when it began along to its end, whatever happens to
/// the state in the meantime, and forgets those and no others.
pub proof fn law_commit_forgets_what_it_began_with<S, O, P, E>(
    commit: CommitView,
    state: CacheView<S>,
    reply: SyncReply<O, P, E>,
)
    ensures
        match commit.step(state, reply) {
            (after, Progress::Ask(next, _)) => {
                &&& after == state
                &&& next.dirty == commit.dirty
                &&& next.deleted == commit.deleted
            },
            (after, Progress::Finish(Ok(_))) => after == state.committed(
                commit.dirty,
                commit.deleted,
            ),
            (after, Progress::Finish(Err(_))) => after == state,
        },
{
}

/// `later` can follow `earlier`: every change in it was there before, or has a generation that was
/// not reached yet.
pub open spec fn follows<S>(later: CacheView<S>, earlier: CacheView<S>) -> bool {
    &&& earlier.change_generation <= later.change_generation
    &&& forall|text: Seq<char>| #[trigger]
        later.dirty.contains_key(text) ==> later.dirty[text] > earlier.change_generation || (
        earlier.dirty.contains_key(text) && earlier.dirty[text] == later.dirty[text])
    &&& forall|text: Seq<char>| #[trigger]
        later.deleted.contains_key(text) ==> later.deleted[text] > earlier.change_generation || (
        earlier.deleted.contains_key(text) && earlier.deleted[text] == later.deleted[text])
}

/// Local changes lead to states that can follow, as long as the count of changes has not reached
/// its largest value. So do commits.
pub proof fn law_changes_follow<S>(
    later: CacheView<S>,
    earlier: CacheView<S>,
    text: Seq<char>,
    dirty: Map<Seq<char>, u64>,
    deleted: Map<Seq<char>, u64>,
)
    requires
        follows(later, earlier),
        later.change_generation < u64::MAX,
    ensures
        follows(earlier, earlier),
        follows(later.marked_dirty(text), earlier),
        follows(later.marked_deleted(text), earlier),
        follows(later.committed(dirty, deleted), earlier),
{
}

/// A commit forgets exactly the changes that were there when it began. A location that was written
/// or deleted again in the meantime stays to be committed.
pub proof fn law_later_changes_stay<S>(began: CacheView<S>, ends: CacheView<S>)
    requires
        began.wf(),
        follows(ends, began),
    ensures
        ({
            let left = ends.committed(began.dirty, began.deleted);
            &&& forall|text: Seq<char>| #[trigger]
                left.dirty.contains_key(text) <==> ends.dirty.contains_key(text)
                    && ends.dirty[text] > began.change_generation
            &&& forall|text: Seq<char>| #[trigger]
                left.deleted.contains_key(text) <==> ends.deleted.contains_key(text)
                    && ends.deleted[text] > began.change_generation
        }),
{
}

} // verus!
