//! The order of the stages of one generator run.
//!
//! A run is a conversation: the library names the next action, the caller
//! performs it and reports what happened, and the library answers with the
//! action after that. The library never touches the outside world, and the
//! caller never decides what comes next.

use crate::error::Error;
use vstd::prelude::*;

verus! {

/// The two ways to obtain a database to introspect.
#[derive(Clone, Copy, PartialEq, Eq, Debug, Structural)]
pub enum Workflow {
    /// A disposable instance is started under a container runtime,
    /// migrated, and removed at the end.
    Transient { podman: bool },
    /// The caller's own database is used as it is.
    Live,
}

/// Where a run stands: each stage waits for what comes of one action.
#[derive(Clone, Copy, PartialEq, Eq, Debug, Structural)]
pub enum Stage {
    Queries,
    Setup,
    Connect,
    Migrations,
    Apply,
    Describe,
    Write,
    Cleanup,
    Finished,
}

/// What the caller has to do next.
#[derive(Debug, PartialEq, Eq)]
pub enum Action {
    /// Read and parse the query files; report how many queries they hold.
    ReadQueries,
    /// Start the disposable instance and wait until it accepts connections.
    Setup { podman: bool },
    /// Open the connection.
    Connect,
    /// Read the migration files and put them in order; report how many there are.
    ReadMigrations,
    /// Apply the migration at this place in the order.
    ApplyMigration { index: usize },
    /// Prepare the query at this place in source order and resolve its types.
    DescribeQuery { index: usize },
    /// Render the bindings and write them to the destination.
    WriteArtifact,
    /// Stop and remove the disposable instance.
    Cleanup { podman: bool },
    /// Nothing is left to do: report this outcome.
    Finish { outcome: Result<(), Error> },
}

/// What came of the last action.
#[derive(Clone, Debug, PartialEq, Eq)]
pub enum Event {
    /// The action succeeded.
    Done,
    /// The action succeeded and found this many items.
    Found { count: usize },
    /// The action failed.
    Failed { error: Error },
}

/// The state of a run between two actions.
#[derive(Clone, Debug, PartialEq, Eq)]
pub struct Run {
    pub workflow: Workflow,
    pub stage: Stage,
    /// The number of migrations, once they have been read.
    pub migrations: usize,
    /// The number of queries, once they have been read.
    pub queries: usize,
    /// The migration or query in hand.
    pub cursor: usize,
    /// The failure that the run will report, if there is one.
    pub failure: Option<Error>,
}

impl Workflow {
    /// Whether the caller's own database is used.
    pub open spec fn is_live(self) -> bool {
        self is Live
    }

    /// Whether the disposable instance runs under `podman`.
    pub open spec fn uses_podman(self) -> bool {
        match self {
            Workflow::Transient { podman } => podman,
            Workflow::Live => false,
        }
    }
}

impl Stage {
    /// How far a stage is from the end of the run.
    pub open spec fn rank(self) -> nat {
        match self {
            Stage::Queries => 8,
            Stage::Setup => 7,
            Stage::Connect => 6,
            Stage::Migrations => 5,
            Stage::Apply => 4,
            Stage::Describe => 3,
            Stage::Write => 2,
            Stage::Cleanup => 1,
            Stage::Finished => 0,
        }
    }
}

impl Event {
    /// The number of items that a successful action found.
    pub open spec fn found(self) -> usize {
        match self {
            Event::Found { count } => count,
            _ => 0,
        }
    }
}

impl Run {
    /// The states that a run can reach from its start.
    pub open spec fn wf(self) -> bool {
        &&& self.workflow.is_live() ==> (self.stage is Queries || self.stage is Connect
            || self.stage is Describe || self.stage is Write || self.stage is Finished)
        &&& self.stage is Apply ==> self.cursor < self.migrations
        &&& self.stage is Describe ==> self.cursor < self.queries
        &&& self.failure is Some ==> (self.stage is Cleanup || self.stage is Finished)
    }

    /// The disposable instance is running and its removal has not been asked for.
    pub open spec fn instance_up(self) -> bool {
        &&& !self.workflow.is_live()
        &&& (self.stage is Connect || self.stage is Migrations || self.stage is Apply
            || self.stage is Describe || self.stage is Write)
    }

    /// What the run reports when it has finished.
    pub open spec fn outcome(self) -> Result<(), Error> {
        match self.failure {
            Some(error) => Err(error),
            None => Ok(()),
        }
    }

    /// The action that the run is waiting for.
    pub open spec fn pending(self) -> Action {
        match self.stage {
            Stage::Queries => Action::ReadQueries,
            Stage::Setup => Action::Setup { podman: self.workflow.uses_podman() },
            Stage::Connect => Action::Connect,
            Stage::Migrations => Action::ReadMigrations,
            Stage::Apply => Action::ApplyMigration { index: self.cursor },
            Stage::Describe => Action::DescribeQuery { index: self.cursor },
            Stage::Write => Action::WriteArtifact,
            Stage::Cleanup => Action::Cleanup { podman: self.workflow.uses_podman() },
            Stage::Finished => Action::Finish { outcome: self.outcome() },
        }
    }

    /// The items of the current stage that are still to be handled.
    pub open spec fn left(self) -> int {
        match self.stage {
            Stage::Apply => self.migrations - self.cursor,
            Stage::Describe => self.queries - self.cursor,
            _ => 0,
        }
    }

    /// Introspection starts at query `k`, or is over.
    pub open spec fn describe_from(self, k: int) -> Run {
        if 0 <= k < self.queries {
            Run { stage: Stage::Describe, cursor: k as usize, ..self }
        } else {
            Run { stage: Stage::Write, cursor: 0, ..self }
        }
    }

    /// Migration starts at file `k`, or is over.
    pub open spec fn apply_from(self, k: int) -> Run {
        if 0 <= k < self.migrations {
            Run { stage: Stage::Apply, cursor: k as usize, ..self }
        } else {
            self.describe_from(0)
        }
    }

    /// The state after an action that succeeded and found `found` items.
    pub open spec fn after_success(self, found: usize) -> Run {
        match self.stage {
            Stage::Queries => Run {
                stage: if self.workflow.is_live() {
                    Stage::Connect
                } else {
                    Stage::Setup
                },
                queries: found,
                ..self
            },
            Stage::Setup => Run { stage: Stage::Connect, ..self },
            Stage::Connect => if self.workflow.is_live() {
                self.describe_from(0)
            } else {
                Run { stage: Stage::Migrations, ..self }
            },
            Stage::Migrations => (Run { migrations: found, ..self }).apply_from(0),
            Stage::Apply => self.apply_from(self.cursor + 1),
            Stage::Describe => self.describe_from(self.cursor + 1),
            Stage::Write => Run {
                stage: if self.workflow.is_live() {
                    Stage::Finished
                } else {
                    Stage::Cleanup
                },
                ..self
            },
            Stage::Cleanup => Run { stage: Stage::Finished, ..self },
            Stage::Finished => self,
        }
    }

    /// The state after an action that failed. While the instance is up its
    /// removal comes first; the removal's own failure replaces an earlier one.
    pub open spec fn after_failure(self, error: Error) -> Run {
        if self.stage is Finished {
            self
        } else if self.instance_up() {
            Run { stage: Stage::Cleanup, failure: Some(error), ..self }
        } else {
            Run { stage: Stage::Finished, failure: Some(error), ..self }
        }
    }

    /// The state after `event` has answered the pending action.
    pub open spec fn next(self, event: Event) -> Run {
        match event {
            Event::Failed { error } => self.after_failure(error),
            _ => self.after_success(event.found()),
        }
    }

    /// The first state of a run.
    pub open spec fn initial(workflow: Workflow) -> Run {
        Run { workflow, stage: Stage::Queries, migrations: 0, queries: 0, cursor: 0, failure: None }
    }

    fn announce(&self) -> (action: Action)
        ensures
            action == self.pending(),
    {
        let podman = match self.workflow {
            Workflow::Transient { podman } => podman,
            Workflow::Live => false,
        };
        match self.stage {
            Stage::Queries => Action::ReadQueries,
            Stage::Setup => Action::Setup { podman },
            Stage::Connect => Action::Connect,
            Stage::Migrations => Action::ReadMigrations,
            Stage::Apply => Action::ApplyMigration { index: self.cursor },
            Stage::Describe => Action::DescribeQuery { index: self.cursor },
            Stage::Write => Action::WriteArtifact,
            Stage::Cleanup => Action::Cleanup { podman },
            Stage::Finished => Action::Finish {
                outcome: match &self.failure {
                    Some(error) => Err(error.duplicate()),
                    None => Ok(()),
                },
            },
        }
    }

    fn enter_describe(self, k: usize) -> (run: Run)
        ensures
            run == self.describe_from(k as int),
    {
        if k < self.queries {
            Run { stage: Stage::Describe, cursor: k, ..self }
        } else {
            Run { stage: Stage::Write, cursor: 0, ..self }
        }
    }

    fn enter_apply(self, k: usize) -> (run: Run)
        ensures
            run == self.apply_from(k as int),
    {
        if k < self.migrations {
            Run { stage: Stage::Apply, cursor: k, ..self }
        } else {
            self.enter_describe(0)
        }
    }

    fn succeed(self, found: usize) -> (run: Run)
        ensures
            run == self.after_success(found),
    {
        let live = match self.workflow {
            Workflow::Transient { .. } => false,
            Workflow::Live => true,
        };
        match self.stage {
            Stage::Queries => Run {
                stage: if live {
                    Stage::Connect
                } else {
                    Stage::Setup
                },
                queries: found,
                ..self
            },
            Stage::Setup => Run { stage: Stage::Connect, ..self },
            Stage::Connect => if live {
                self.enter_describe(0)
            } else {
                Run { stage: Stage::Migrations, ..self }
            },
            Stage::Migrations => {
                let counted = Run { migrations: found, ..self };
                counted.enter_apply(0)
            },
            Stage::Apply => if self.cursor < usize::MAX {
                let k = self.cursor + 1;
                self.enter_apply(k)
            } else {
                self.enter_describe(0)
            },
            Stage::Describe => if self.cursor < usize::MAX {
                let k = self.cursor + 1;
                self.enter_describe(k)
            } else {
                Run { stage: Stage::Write, cursor: 0, ..self }
            },
            Stage::Write => Run {
                stage: if live {
                    Stage::Finished
                } else {
                    Stage::Cleanup
                },
                ..self
            },
            Stage::Cleanup => Run { stage: Stage::Finished, ..self },
            Stage::Finished => self,
        }
    }

    fn fail(self, error: Error) -> (run: Run)
        ensures
            run == self.after_failure(error),
    {
        let live = match self.workflow {
            Workflow::Transient { .. } => false,
            Workflow::Live => true,
        };
        match self.stage {
            Stage::Finished => self,
            Stage::Connect | Stage::Migrations | Stage::Apply | Stage::Describe | Stage::Write => {
                if live {
                    Run { stage: Stage::Finished, failure: Some(error), ..self }
                } else {
                    Run { stage: Stage::Cleanup, failure: Some(error), ..self }
                }
            },
            _ => Run { stage: Stage::Finished, failure: Some(error), ..self },
        }
    }
}

/// Begins a run: the first state, and the first action to perform.
pub fn generate_start(workflow: Workflow) -> (started: (Run, Action))
    ensures
        started.0 == Run::initial(workflow),
        started.1 == started.0.pending(),
        started.1 == Action::ReadQueries,
{
    let run = Run {
        workflow,
        stage: Stage::Queries,
        migrations: 0,
        queries: 0,
        cursor: 0,
        failure: None,
    };
    (run, Action::ReadQueries)
}

/// Carries a run one step further: takes what came of the pending action
/// and answers with the next state and the action to perform in it.
///
/// A failure before the disposable instance exists, or in the live
/// workflow, ends the run at once. A failure while the instance is up
/// leads to its removal first. A run that has finished stays finished and
/// repeats its outcome. A count matters after the queries and after the
/// migrations have been read, where `Done` counts as nothing found; after
/// any other action it is passed over.
pub fn generate_action(run: Run, event: Event) -> (step: (Run, Action))
    ensures
        step.0 == run.next(event),
        step.1 == step.0.pending(),
{
    let next = match event {
        Event::Failed { error } => run.fail(error),
        Event::Found { count } => run.succeed(count),
        Event::Done => run.succeed(0),
    };
    let action = next.announce();
    (next, action)
}

} // verus!
