//! Whole runs: the actions of a run against a given world, and what holds
//! of them however the world behaves.

use crate::pipeline::{Action, Event, Run, Stage, Workflow};
use vstd::prelude::*;

verus! {

/// The actions of the run that starts in `run`, in the order in which they
/// are handed out, where `world` tells what comes of each action. The last
/// one is the `Finish` with which the run ends. No action is handed out
/// twice in a run, so a world of this form can fail any choice of them.
pub open spec fn play(run: Run, world: spec_fn(Action) -> Event) -> Seq<Action>
    decreases run.stage.rank(), run.left(),
{
    if run.stage is Finished {
        seq![run.pending()]
    } else {
        seq![run.pending()] + play(run.next(world(run.pending())), world)
    }
}

/// The place of an action in the order of a run: the stage it belongs to,
/// and within a stage the item it handles.
pub open spec fn place(action: Action) -> (int, int) {
    match action {
        Action::ReadQueries => (0, 0),
        Action::Setup { .. } => (1, 0),
        Action::Connect => (2, 0),
        Action::ReadMigrations => (3, 0),
        Action::ApplyMigration { index } => (4, index as int),
        Action::DescribeQuery { index } => (5, index as int),
        Action::WriteArtifact => (6, 0),
        Action::Cleanup { .. } => (7, 0),
        Action::Finish { .. } => (8, 0),
    }
}

/// `a` comes before `b` in the order of a run.
pub open spec fn precedes(a: Action, b: Action) -> bool {
    place(a).0 < place(b).0 || (place(a).0 == place(b).0 && place(a).1 < place(b).1)
}

/// The actions that read the queries and the database's answer to them,
/// and the end of the run: what the generated text depends on.
pub open spec fn concerns_queries(action: Action) -> bool {
    action is ReadQueries || action is Connect || action is DescribeQuery
        || action is WriteArtifact || action is Finish
}

/// The actions of a run that concern the queries, in their order.
pub open spec fn introspection(actions: Seq<Action>) -> Seq<Action>
    decreases actions.len(),
{
    if actions.len() == 0 {
        Seq::empty()
    } else if concerns_queries(actions[0]) {
        seq![actions[0]] + introspection(actions.drop_first())
    } else {
        introspection(actions.drop_first())
    }
}

/// The disposable instance and the migrations give no trouble.
pub open spec fn provisioning_succeeds(world: spec_fn(Action) -> Event) -> bool {
    forall|a: Action|
        (a is Setup || a is ReadMigrations || a is ApplyMigration || a is Cleanup) ==> !(
        #[trigger] world(a) is Failed)
}

/// Whether the run that starts in `run` will ask for the removal of the instance.
pub open spec fn will_tear_down(run: Run, world: spec_fn(Action) -> Event) -> bool {
    match run.stage {
        Stage::Queries => !run.workflow.is_live() && !(world(Action::ReadQueries) is Failed) && !(
        world(Action::Setup { podman: run.workflow.uses_podman() }) is Failed),
        Stage::Setup => !(world(Action::Setup { podman: run.workflow.uses_podman() }) is Failed),
        Stage::Cleanup => true,
        Stage::Finished => false,
        _ => !run.workflow.is_live(),
    }
}

/// A step leads from a reachable state to a reachable state, and to a later action.
pub proof fn step_goes_forward(run: Run, event: Event)
    requires
        run.wf(),
    ensures
        run.next(event).wf(),
        !(run.stage is Finished) ==> precedes(run.pending(), run.next(event).pending()),
        run.next(event).workflow == run.workflow,
{
}

proof fn lemma_play_order(run: Run, world: spec_fn(Action) -> Event)
    requires
        run.wf(),
    ensures
        play(run, world).len() >= 1,
        play(run, world)[0] == run.pending(),
        play(run, world).last() is Finish,
        forall|i: int|
            1 <= i < play(run, world).len() ==> precedes(
                run.pending(),
                #[trigger] play(run, world)[i],
            ),
        forall|i: int, j: int|
            0 <= i < j < play(run, world).len() ==> precedes(
                #[trigger] play(run, world)[i],
                #[trigger] play(run, world)[j],
            ),
    decreases run.stage.rank(), run.left(),
{
    if !(run.stage is Finished) {
        let next = run.next(world(run.pending()));
        step_goes_forward(run, world(run.pending()));
        lemma_play_order(next, world);
        let rest = play(next, world);
        let all = play(run, world);
        assert(all == seq![run.pending()] + rest);
        assert forall|i: int| 1 <= i < all.len() implies precedes(
            run.pending(),
            #[trigger] all[i],
        ) by {
            assert(all[i] == rest[i - 1]);
        }
        assert forall|i: int, j: int| 0 <= i < j < all.len() implies precedes(
            #[trigger] all[i],
            #[trigger] all[j],
        ) by {
            assert(all[j] == rest[j - 1]);
            if i > 0 {
                assert(all[i] == rest[i - 1]);
            }
        }
        assert(all.last() == rest.last());
    }
}

proof fn lemma_play_teardown(run: Run, world: spec_fn(Action) -> Event)
    requires
        run.wf(),
    ensures
        will_tear_down(run, world) <==> exists|i: int|
            0 <= i < play(run, world).len() && #[trigger] play(run, world)[i] is Cleanup,
    decreases run.stage.rank(), run.left(),
{
    let all = play(run, world);
    if run.stage is Finished {
        assert(all == seq![run.pending()]);
    } else {
        let next = run.next(world(run.pending()));
        step_goes_forward(run, world(run.pending()));
        lemma_play_teardown(next, world);
        let rest = play(next, world);
        assert(all == seq![run.pending()] + rest);
        assert(will_tear_down(run, world) <==> (run.stage is Cleanup || will_tear_down(
            next,
            world,
        )));
        if will_tear_down(run, world) {
            if run.stage is Cleanup {
                assert(all[0] is Cleanup);
            } else {
                let i = choose|i: int| 0 <= i < rest.len() && #[trigger] rest[i] is Cleanup;
                assert(all[i + 1] == rest[i]);
                assert(all[i + 1] is Cleanup);
            }
        } else {
            assert forall|i: int| 0 <= i < all.len() implies !(#[trigger] all[i] is Cleanup) by {
                if i > 0 {
                    assert(all[i] == rest[i - 1]);
                }
            }
        }
    }
}

/// The actions of a run come in the order of the stages, the migrations
/// and then the queries each in ascending order, and no action comes
/// twice; the run ends with `Finish`.
pub proof fn actions_in_order(workflow: Workflow, world: spec_fn(Action) -> Event)
    ensures
        ({
            let actions = play(Run::initial(workflow), world);
            &&& actions.len() >= 2
            &&& actions[0] == Action::ReadQueries
            &&& actions.last() is Finish
            &&& forall|i: int, j: int|
                0 <= i < j < actions.len() ==> precedes(#[trigger] actions[i], #[trigger] actions[j])
        }),
{
    lemma_play_order(Run::initial(workflow), world);
    let run = Run::initial(workflow);
    let next = run.next(world(run.pending()));
    step_goes_forward(run, world(run.pending()));
    lemma_play_order(next, world);
    assert(play(run, world) == seq![run.pending()] + play(next, world));
}

/// Whatever fails in a transient run, and wherever: if the disposable
/// instance was started, its removal is asked for exactly once, after
/// every other stage and before the outcome is reported; if the queries
/// could not be read or the instance could not be started, it is never
/// asked for.
pub proof fn teardown_exactly_once(podman: bool, world: spec_fn(Action) -> Event)
    ensures
        ({
            let actions = play(Run::initial(Workflow::Transient { podman }), world);
            let started = !(world(Action::ReadQueries) is Failed) && !(world(
                Action::Setup { podman },
            ) is Failed);
            &&& started ==> exists|i: int|
                {
                    &&& 0 < i < actions.len() - 1
                    &&& #[trigger] actions[i] == Action::Cleanup { podman }
                    &&& actions[i + 1] is Finish
                    &&& forall|j: int|
                        0 <= j < actions.len() && #[trigger] actions[j] is Cleanup ==> j == i
                    &&& forall|j: int| 0 <= j < i ==> precedes(#[trigger] actions[j], actions[i])
                }
            &&& !started ==> forall|j: int|
                0 <= j < actions.len() ==> !(#[trigger] actions[j] is Cleanup)
        }),
{
    let run = Run::initial(Workflow::Transient { podman });
    let actions = play(run, world);
    lemma_play_order(run, world);
    lemma_play_teardown(run, world);
    let started = !(world(Action::ReadQueries) is Failed) && !(world(Action::Setup { podman })
        is Failed);
    assert(started == will_tear_down(run, world));
    if started {
        let i = choose|i: int| 0 <= i < actions.len() && #[trigger] actions[i] is Cleanup;
        assert(actions[0] == Action::ReadQueries);
        assert(actions.last() is Finish);
        lemma_cleanup_names_runtime(run, world, i);
        assert forall|j: int| 0 <= j < actions.len() && #[trigger] actions[j] is Cleanup implies j
            == i by {
            if j < i {
                assert(precedes(actions[j], actions[i]));
            }
            if i < j {
                assert(precedes(actions[i], actions[j]));
            }
        }
        if i + 1 < actions.len() - 1 {
            assert(precedes(actions[i], actions[i + 1]));
            assert(precedes(actions[i + 1], actions[actions.len() - 1]));
        }
    }
}

proof fn lemma_cleanup_names_runtime(run: Run, world: spec_fn(Action) -> Event, i: int)
    requires
        run.wf(),
        0 <= i < play(run, world).len(),
        play(run, world)[i] is Cleanup,
    ensures
        play(run, world)[i] == (Action::Cleanup { podman: run.workflow.uses_podman() }),
    decreases run.stage.rank(), run.left(),
{
    if !(run.stage is Finished) {
        let next = run.next(world(run.pending()));
        step_goes_forward(run, world(run.pending()));
        assert(play(run, world) == seq![run.pending()] + play(next, world));
        if i > 0 {
            assert(play(run, world)[i] == play(next, world)[i - 1]);
            lemma_cleanup_names_runtime(next, world, i - 1);
        }
    }
}

/// What the run that starts in `run` reports at its end.
proof fn lemma_play_outcome(run: Run, world: spec_fn(Action) -> Event)
    requires
        run.wf(),
    ensures
        ({
            let actions = play(run, world);
            let last = actions.len() - 1;
            &&& actions[last] is Finish
            &&& (forall|i: int| 0 <= i < last ==> !(#[trigger] world(actions[i]) is Failed))
                ==> actions[last] == (Action::Finish { outcome: run.outcome() })
            &&& forall|i: int|
                0 <= i < last && #[trigger] world(actions[i]) is Failed ==> {
                    ||| actions[last] == (Action::Finish {
                        outcome: Err(world(actions[i])->error),
                    })
                    ||| last >= 1 && actions[last - 1] is Cleanup && world(actions[last - 1])
                        is Failed && actions[last] == (Action::Finish {
                        outcome: Err(world(actions[last - 1])->error),
                    })
                }
        }),
    decreases run.stage.rank(), run.left(),
{
    let actions = play(run, world);
    let last = actions.len() - 1;
    lemma_play_order(run, world);
    if !(run.stage is Finished) {
        let event = world(run.pending());
        let next = run.next(event);
        step_goes_forward(run, event);
        lemma_play_outcome(next, world);
        lemma_play_order(next, world);
        let rest = play(next, world);
        assert(actions == seq![run.pending()] + rest);
        assert(actions[last] == rest[last - 1]);
        assert(forall|i: int| 1 <= i <= last ==> actions[i] == rest[i - 1]);
        if event is Failed {
            // The run ends at once, or with the removal of the instance.
            if next.stage is Cleanup {
                let removal = world(next.pending());
                let end = next.next(removal);
                assert(play(end, world) == seq![end.pending()]);
                assert(rest == seq![next.pending()] + play(end, world));
                assert(last == 2);
            } else {
                assert(rest == seq![next.pending()]);
                assert(last == 1);
            }
        } else {
            assert(next.outcome() == run.outcome());
            assert forall|i: int| 0 <= i < last && #[trigger] world(actions[i]) is Failed implies {
                ||| actions[last] == (Action::Finish { outcome: Err(world(actions[i])->error) })
                ||| last >= 1 && actions[last - 1] is Cleanup && world(actions[last - 1])
                    is Failed && actions[last] == (Action::Finish {
                    outcome: Err(world(actions[last - 1])->error),
                })
            } by {
                assert(i >= 1);
                assert(actions[i] == rest[i - 1]);
                assert(world(rest[i - 1]) is Failed);
                if last >= 2 {
                    assert(actions[last - 1] == rest[last - 2]);
                }
            }
            if forall|i: int| 0 <= i < last ==> !(#[trigger] world(actions[i]) is Failed) {
                assert forall|i: int| 0 <= i < last - 1 implies !(#[trigger] world(rest[i])
                    is Failed) by {
                    assert(actions[i + 1] == rest[i]);
                }
            }
        }
    }
}

/// A run reports success if none of its actions fails. If one fails, it
/// reports that failure, once the disposable instance has been removed
/// where there is one; if the removal fails, it reports the failure of
/// the removal.
pub proof fn failure_is_reported(workflow: Workflow, world: spec_fn(Action) -> Event)
    ensures
        ({
            let actions = play(Run::initial(workflow), world);
            let last = actions.len() - 1;
            &&& actions[last] is Finish
            &&& (forall|i: int| 0 <= i < last ==> !(#[trigger] world(actions[i]) is Failed))
                ==> actions[last] == (Action::Finish { outcome: Ok(()) })
            &&& forall|i: int|
                0 <= i < last && #[trigger] world(actions[i]) is Failed ==> {
                    ||| actions[last] == (Action::Finish {
                        outcome: Err(world(actions[i])->error),
                    })
                    ||| last >= 1 && actions[last - 1] is Cleanup && world(actions[last - 1])
                        is Failed && actions[last] == (Action::Finish {
                        outcome: Err(world(actions[last - 1])->error),
                    })
                }
        }),
{
    lemma_play_outcome(Run::initial(workflow), world);
}

/// Nothing fails in this world.
pub open spec fn untroubled(world: spec_fn(Action) -> Event) -> bool {
    forall|a: Action| !(#[trigger] world(a) is Failed)
}

/// The application of the migrations from number `from` up to `count`, in
/// ascending order.
pub open spec fn applications(from: int, count: int) -> Seq<Action> {
    Seq::new(
        (count - from) as nat,
        |k: int| Action::ApplyMigration { index: (from + k) as usize },
    )
}

/// The introspection of the queries from number `from` up to `count`, in
/// ascending order.
pub open spec fn descriptions(from: int, count: int) -> Seq<Action> {
    Seq::new((count - from) as nat, |k: int| Action::DescribeQuery { index: (from + k) as usize })
}

/// The end of a run in which nothing failed: the text is written, the
/// disposable instance is removed where there is one, success is reported.
pub open spec fn conclusion(workflow: Workflow) -> Seq<Action> {
    if workflow.is_live() {
        seq![Action::WriteArtifact, Action::Finish { outcome: Ok(()) }]
    } else {
        seq![
            Action::WriteArtifact,
            Action::Cleanup { podman: workflow.uses_podman() },
            Action::Finish { outcome: Ok(()) },
        ]
    }
}

proof fn lemma_concluding(run: Run, world: spec_fn(Action) -> Event)
    requires
        run.wf(),
        untroubled(world),
        run.stage is Write,
        run.failure is None,
    ensures
        play(run, world) == conclusion(run.workflow),
{
    let written = run.next(world(run.pending()));
    assert(!(world(run.pending()) is Failed));
    assert(play(run, world) == seq![run.pending()] + play(written, world));
    if run.workflow.is_live() {
        assert(play(written, world) == seq![written.pending()]);
        assert(play(run, world) =~= conclusion(run.workflow));
    } else {
        let removed = written.next(world(written.pending()));
        assert(!(world(written.pending()) is Failed));
        assert(play(written, world) == seq![written.pending()] + play(removed, world));
        assert(play(removed, world) == seq![removed.pending()]);
        assert(play(run, world) =~= conclusion(run.workflow));
    }
}

proof fn lemma_describing(run: Run, world: spec_fn(Action) -> Event)
    requires
        run.wf(),
        untroubled(world),
        run.stage is Describe || run.stage is Write,
        run.stage is Write ==> run.cursor == 0,
        run.failure is None,
    ensures
        play(run, world) == descriptions(
            if run.stage is Write {
                run.queries as int
            } else {
                run.cursor as int
            },
            run.queries as int,
        ) + conclusion(run.workflow),
    decreases run.stage.rank(), run.left(),
{
    if run.stage is Write {
        lemma_concluding(run, world);
        assert(descriptions(run.queries as int, run.queries as int) =~= Seq::<Action>::empty());
        assert(play(run, world) =~= descriptions(run.queries as int, run.queries as int)
            + conclusion(run.workflow));
    } else {
        let next = run.next(world(run.pending()));
        assert(!(world(run.pending()) is Failed));
        step_goes_forward(run, world(run.pending()));
        lemma_describing(next, world);
        assert(play(run, world) == seq![run.pending()] + play(next, world));
        let from = if next.stage is Write {
            run.queries as int
        } else {
            next.cursor as int
        };
        assert(from == run.cursor + 1);
        assert(seq![run.pending()] + descriptions(run.cursor + 1, run.queries as int)
            =~= descriptions(run.cursor as int, run.queries as int));
        assert(play(run, world) =~= descriptions(run.cursor as int, run.queries as int)
            + conclusion(run.workflow));
    }
}

proof fn lemma_applying(run: Run, world: spec_fn(Action) -> Event)
    requires
        run.wf(),
        untroubled(world),
        !run.workflow.is_live(),
        run.stage is Apply,
        run.failure is None,
    ensures
        play(run, world) == applications(run.cursor as int, run.migrations as int) + descriptions(
            0,
            run.queries as int,
        ) + conclusion(run.workflow),
    decreases run.left(),
{
    let next = run.next(world(run.pending()));
    assert(!(world(run.pending()) is Failed));
    step_goes_forward(run, world(run.pending()));
    assert(play(run, world) == seq![run.pending()] + play(next, world));
    assert(seq![run.pending()] + applications(run.cursor + 1, run.migrations as int)
        =~= applications(run.cursor as int, run.migrations as int));
    if next.stage is Apply {
        lemma_applying(next, world);
    } else {
        lemma_describing(next, world);
        assert(applications(run.cursor + 1, run.migrations as int) =~= Seq::<Action>::empty());
    }
    assert(play(run, world) =~= applications(run.cursor as int, run.migrations as int)
        + descriptions(0, run.queries as int) + conclusion(run.workflow));
}

/// Where nothing fails, a transient run starts the instance and connects,
/// applies every migration once in ascending order, then introspects
/// every query once in source order, writes the text, removes the
/// instance and reports success; a live run connects, introspects every
/// query once in source order, writes the text and reports success.
pub proof fn untroubled_run(workflow: Workflow, world: spec_fn(Action) -> Event)
    requires
        untroubled(world),
    ensures
        ({
            let queries = world(Action::ReadQueries).found() as int;
            let migrations = world(Action::ReadMigrations).found() as int;
            play(Run::initial(workflow), world) == if workflow.is_live() {
                seq![Action::ReadQueries, Action::Connect] + descriptions(0, queries) + conclusion(
                    workflow,
                )
            } else {
                seq![
                    Action::ReadQueries,
                    Action::Setup { podman: workflow.uses_podman() },
                    Action::Connect,
                    Action::ReadMigrations,
                ] + applications(0, migrations) + descriptions(0, queries) + conclusion(workflow)
            }
        }),
{
    let queries = world(Action::ReadQueries).found() as int;
    let migrations = world(Action::ReadMigrations).found() as int;
    let start = Run::initial(workflow);
    let read = start.next(world(start.pending()));
    assert(!(world(start.pending()) is Failed));
    step_goes_forward(start, world(start.pending()));
    assert(play(start, world) == seq![start.pending()] + play(read, world));
    if workflow.is_live() {
        let connected = read.next(world(read.pending()));
        assert(!(world(read.pending()) is Failed));
        step_goes_forward(read, world(read.pending()));
        assert(play(read, world) == seq![read.pending()] + play(connected, world));
        lemma_describing(connected, world);
        assert(play(start, world) =~= seq![Action::ReadQueries, Action::Connect] + descriptions(
            0,
            queries,
        ) + conclusion(workflow));
    } else {
        let set_up = read.next(world(read.pending()));
        assert(!(world(read.pending()) is Failed));
        step_goes_forward(read, world(read.pending()));
        assert(play(read, world) == seq![read.pending()] + play(set_up, world));
        let connected = set_up.next(world(set_up.pending()));
        assert(!(world(set_up.pending()) is Failed));
        step_goes_forward(set_up, world(set_up.pending()));
        assert(play(set_up, world) == seq![set_up.pending()] + play(connected, world));
        let listed = connected.next(world(connected.pending()));
        assert(!(world(connected.pending()) is Failed));
        step_goes_forward(connected, world(connected.pending()));
        assert(play(connected, world) == seq![connected.pending()] + play(listed, world));
        if listed.stage is Apply {
            lemma_applying(listed, world);
        } else {
            lemma_describing(listed, world);
            assert(applications(0, migrations) =~= Seq::<Action>::empty());
        }
        assert(play(listed, world) =~= applications(0, migrations) + descriptions(0, queries)
            + conclusion(workflow));
        assert(play(start, world) =~= seq![
            Action::ReadQueries,
            Action::Setup { podman: workflow.uses_podman() },
            Action::Connect,
            Action::ReadMigrations,
        ] + applications(0, migrations) + descriptions(0, queries) + conclusion(workflow));
    }
}

proof fn lemma_play_counts(run: Run, world: spec_fn(Action) -> Event, i: int)
    requires
        run.wf(),
        0 <= i < play(run, world).len(),
        !(run.stage is Queries || run.stage is Cleanup || run.stage is Finished) ==> run.queries
            == world(Action::ReadQueries).found(),
        run.stage is Apply ==> run.migrations == world(Action::ReadMigrations).found(),
    ensures
        play(run, world)[i] matches Action::ApplyMigration { index } ==> index < world(
            Action::ReadMigrations,
        ).found(),
        play(run, world)[i] matches Action::DescribeQuery { index } ==> index < world(
            Action::ReadQueries,
        ).found(),
    decreases run.stage.rank(), run.left(),
{
    if !(run.stage is Finished) {
        let next = run.next(world(run.pending()));
        step_goes_forward(run, world(run.pending()));
        assert(play(run, world) == seq![run.pending()] + play(next, world));
        if i > 0 {
            assert(play(run, world)[i] == play(next, world)[i - 1]);
            lemma_play_counts(next, world, i - 1);
        }
    }
}

/// A run asks for the migrations and the queries that were found, and
/// for no others: every number it names is below the count reported.
pub proof fn numbers_are_in_range(workflow: Workflow, world: spec_fn(Action) -> Event, i: int)
    requires
        0 <= i < play(Run::initial(workflow), world).len(),
    ensures
        play(Run::initial(workflow), world)[i] matches Action::ApplyMigration { index } ==> index
            < world(Action::ReadMigrations).found(),
        play(Run::initial(workflow), world)[i] matches Action::DescribeQuery { index } ==> index
            < world(Action::ReadQueries).found(),
{
    lemma_play_counts(Run::initial(workflow), world, i);
}

/// A live run never asks for the disposable instance, for its removal, or
/// for a migration.
pub proof fn live_run_leaves_provisioning_alone(world: spec_fn(Action) -> Event)
    ensures
        forall|i: int|
            0 <= i < play(Run::initial(Workflow::Live), world).len() ==> concerns_queries(
                #[trigger] play(Run::initial(Workflow::Live), world)[i],
            ),
{
    lemma_live_play(Run::initial(Workflow::Live), world);
}

proof fn lemma_live_play(run: Run, world: spec_fn(Action) -> Event)
    requires
        run.wf(),
        run.workflow.is_live(),
    ensures
        forall|i: int|
            0 <= i < play(run, world).len() ==> concerns_queries(#[trigger] play(run, world)[i]),
    decreases run.stage.rank(), run.left(),
{
    if !(run.stage is Finished) {
        let next = run.next(world(run.pending()));
        step_goes_forward(run, world(run.pending()));
        lemma_live_play(next, world);
        let rest = play(next, world);
        let all = play(run, world);
        assert(all == seq![run.pending()] + rest);
        assert forall|i: int| 0 <= i < all.len() implies concerns_queries(#[trigger] all[i]) by {
            if i > 0 {
                assert(all[i] == rest[i - 1]);
            }
        }
    }
}

proof fn lemma_introspection_first(first: Action, rest: Seq<Action>)
    ensures
        introspection(seq![first] + rest) == if concerns_queries(first) {
            seq![first] + introspection(rest)
        } else {
            introspection(rest)
        },
{
    assert((seq![first] + rest).drop_first() =~= rest);
}

proof fn lemma_introspection_unfold(run: Run, world: spec_fn(Action) -> Event)
    ensures
        introspection(play(run, world)) == if run.stage is Finished {
            seq![run.pending()]
        } else if concerns_queries(run.pending()) {
            seq![run.pending()] + introspection(play(run.next(world(run.pending())), world))
        } else {
            introspection(play(run.next(world(run.pending())), world))
        },
{
    if run.stage is Finished {
        lemma_introspection_first(run.pending(), Seq::empty());
        assert(seq![run.pending()] + Seq::<Action>::empty() =~= seq![run.pending()]);
        assert(introspection(Seq::<Action>::empty()) =~= Seq::<Action>::empty());
        assert(seq![run.pending()] + introspection(Seq::<Action>::empty()) =~= seq![
            run.pending(),
        ]);
    } else {
        lemma_introspection_first(run.pending(), play(run.next(world(run.pending())), world));
    }
}

/// The two runs are at the same place in the introspection of the same queries.
spec fn alike(transient: Run, live: Run) -> bool {
    &&& transient.wf() && live.wf()
    &&& !transient.workflow.is_live() && live.workflow.is_live()
    &&& transient.stage == live.stage
    &&& transient.stage is Describe || transient.stage is Write
    &&& transient.queries == live.queries
    &&& transient.cursor == live.cursor
    &&& transient.failure == live.failure
}

proof fn lemma_closing(run: Run, world: spec_fn(Action) -> Event)
    requires
        run.wf(),
        provisioning_succeeds(world),
        run.stage is Cleanup || run.stage is Finished,
    ensures
        introspection(play(run, world)) == seq![(Action::Finish { outcome: run.outcome() })],
{
    lemma_introspection_unfold(run, world);
    if run.stage is Cleanup {
        let next = run.next(world(run.pending()));
        assert(!(world(run.pending()) is Failed));
        lemma_introspection_unfold(next, world);
    }
}

proof fn lemma_alike(transient: Run, live: Run, world: spec_fn(Action) -> Event)
    requires
        alike(transient, live),
        provisioning_succeeds(world),
    ensures
        introspection(play(transient, world)) == introspection(play(live, world)),
    decreases transient.stage.rank(), transient.left(),
{
    let event = world(transient.pending());
    let t = transient.next(event);
    let l = live.next(event);
    step_goes_forward(transient, event);
    step_goes_forward(live, event);
    lemma_introspection_unfold(transient, world);
    lemma_introspection_unfold(live, world);
    if t.stage is Describe || t.stage is Write {
        lemma_alike(t, l, world);
    } else {
        lemma_closing(t, world);
        lemma_closing(l, world);
    }
}

proof fn lemma_migrating(run: Run, world: spec_fn(Action) -> Event)
    requires
        run.wf(),
        !run.workflow.is_live(),
        run.stage is Apply,
        provisioning_succeeds(world),
    ensures
        introspection(play(run, world)) == introspection(play(run.describe_from(0), world)),
    decreases run.left(),
{
    let event = world(run.pending());
    assert(!(event is Failed));
    let next = run.next(event);
    lemma_introspection_unfold(run, world);
    if next.stage is Apply {
        lemma_migrating(next, world);
        assert(next.describe_from(0) == run.describe_from(0));
    }
}

/// Where the disposable instance and the migrations give no trouble, a
/// transient run and a live run that meet the same world read the same
/// queries, put the same questions to the database in the same order,
/// write or do not write alike, and report the same outcome.
pub proof fn live_and_transient_agree(podman: bool, world: spec_fn(Action) -> Event)
    requires
        provisioning_succeeds(world),
    ensures
        introspection(play(Run::initial(Workflow::Transient { podman }), world)) == introspection(
            play(Run::initial(Workflow::Live), world),
        ),
{
    let t0 = Run::initial(Workflow::Transient { podman });
    let l0 = Run::initial(Workflow::Live);
    let read = world(Action::ReadQueries);
    lemma_introspection_unfold(t0, world);
    lemma_introspection_unfold(l0, world);
    let t1 = t0.next(read);
    let l1 = l0.next(read);
    step_goes_forward(t0, read);
    step_goes_forward(l0, read);
    if read is Failed {
        lemma_closing(t1, world);
        lemma_closing(l1, world);
    } else {
        // The transient run starts its instance; both connect.
        lemma_introspection_unfold(t1, world);
        let t2 = t1.next(world(t1.pending()));
        assert(!(world(t1.pending()) is Failed));
        step_goes_forward(t1, world(t1.pending()));
        assert(t2.stage is Connect && l1.stage is Connect);
        let connect = world(Action::Connect);
        lemma_introspection_unfold(t2, world);
        lemma_introspection_unfold(l1, world);
        let t3 = t2.next(connect);
        let l2 = l1.next(connect);
        step_goes_forward(t2, connect);
        step_goes_forward(l1, connect);
        if connect is Failed {
            lemma_closing(t3, world);
            lemma_closing(l2, world);
        } else {
            // The transient run reads and applies its migrations.
            lemma_introspection_unfold(t3, world);
            let listed = world(t3.pending());
            assert(!(listed is Failed));
            let t4 = t3.next(listed);
            step_goes_forward(t3, listed);
            if t4.stage is Apply {
                lemma_migrating(t4, world);
            }
            let t5 = t4.describe_from(0);
            assert(introspection(play(t4, world)) == introspection(play(t5, world)));
            assert(t5.wf());
            lemma_alike(t5, l2, world);
        }
    }
}

} // verus!
