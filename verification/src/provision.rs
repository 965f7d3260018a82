//! The disposable database instance: which runtime hosts it, and how long
//! to wait for it.
//!
//! Starting, probing and removing the instance is the caller's work. Here
//! is what is decided about it: the program to call, and after each probe
//! whether to go on, to wait, or to give up.

use crate::error::{Error, ErrorKind, ErrorView};
use vstd::prelude::*;

verus! {

/// The program of the container runtime.
pub open spec fn runtime_name(podman: bool) -> Seq<char> {
    if podman {
        "podman"@
    } else {
        "docker"@
    }
}

/// The program of the container runtime: `podman` where it is chosen,
/// `docker` otherwise.
pub fn runtime_program(podman: bool) -> (program: &'static str)
    ensures
        program@ == runtime_name(podman),
{
    if podman {
        "podman"
    } else {
        "docker"
    }
}

/// How often the instance is probed and how long the pauses are: the
/// first pause, doubled after each probe that fails, never more than the
/// longest.
#[derive(Clone, Copy, Debug, PartialEq, Eq, Structural)]
pub struct RetryPolicy {
    pub max_attempts: u32,
    pub first_delay_ms: u64,
    pub max_delay_ms: u64,
}

/// What to do after a probe.
#[derive(Debug, PartialEq, Eq)]
pub enum ProbeStep {
    /// The instance accepts connections.
    Ready,
    /// Pause this long, then probe again.
    Wait { millis: u64 },
    /// The instance did not come up in time.
    GiveUp { error: Error },
}

/// The mathematical content of a [`ProbeStep`].
pub enum ProbeStepView {
    Ready,
    Wait { millis: int },
    GiveUp { error: ErrorView },
}

impl View for ProbeStep {
    type V = ProbeStepView;

    open spec fn view(&self) -> ProbeStepView {
        match *self {
            ProbeStep::Ready => ProbeStepView::Ready,
            ProbeStep::Wait { millis } => ProbeStepView::Wait { millis: millis as int },
            ProbeStep::GiveUp { error } => ProbeStepView::GiveUp { error: error@ },
        }
    }
}

/// The smaller of two numbers.
pub open spec fn least(a: int, b: int) -> int {
    if a <= b {
        a
    } else {
        b
    }
}

/// The pause after the probe number `attempt` has failed.
pub open spec fn delay_after(policy: RetryPolicy, attempt: int) -> int
    decreases attempt,
{
    if attempt <= 1 {
        least(policy.first_delay_ms as int, policy.max_delay_ms as int)
    } else {
        least(2 * delay_after(policy, attempt - 1), policy.max_delay_ms as int)
    }
}

/// All the pauses up to the one after the probe number `attempts`.
pub open spec fn waited(policy: RetryPolicy, attempts: int) -> int
    decreases attempts,
{
    if attempts <= 0 {
        0
    } else {
        waited(policy, attempts - 1) + delay_after(policy, attempts)
    }
}

/// The error for an instance that did not come up in time.
pub open spec fn not_ready() -> ErrorView {
    ErrorView {
        kind: ErrorKind::Provisioning,
        subject: "disposable database"@,
        detail: "it did not accept connections in time"@,
    }
}

/// What follows the probe number `attempt`, counted from one: ready where
/// it found the instance healthy; giving up where it was the last probe
/// that the policy allows; a pause otherwise.
pub open spec fn step_after(policy: RetryPolicy, attempt: int, healthy: bool) -> ProbeStepView {
    if healthy {
        ProbeStepView::Ready
    } else if attempt >= policy.max_attempts {
        ProbeStepView::GiveUp { error: not_ready() }
    } else {
        ProbeStepView::Wait { millis: delay_after(policy, attempt) }
    }
}

/// No pause is longer than the longest that the policy allows.
pub proof fn lemma_delay_bounded(policy: RetryPolicy, attempt: int)
    ensures
        0 <= delay_after(policy, attempt) <= policy.max_delay_ms,
    decreases attempt,
{
    if attempt > 1 {
        lemma_delay_bounded(policy, attempt - 1);
    }
}

/// The wait for the instance is bounded: a probe that fails when the
/// policy's attempts are used up ends it, and all pauses before that add
/// up to no more than the attempts times the longest pause.
pub proof fn readiness_wait_is_bounded(policy: RetryPolicy, attempts: int)
    requires
        0 <= attempts,
    ensures
        0 <= waited(policy, attempts) <= attempts * policy.max_delay_ms,
        attempts >= policy.max_attempts ==> step_after(policy, attempts, false) is GiveUp,
        attempts < policy.max_attempts ==> step_after(policy, attempts, false) is Wait,
    decreases attempts,
{
    if attempts > 0 {
        readiness_wait_is_bounded(policy, attempts - 1);
        lemma_delay_bounded(policy, attempts);
        assert((attempts - 1) * policy.max_delay_ms + policy.max_delay_ms == attempts
            * policy.max_delay_ms) by (nonlinear_arith);
    }
}

/// Decides what follows a probe of the instance. `attempt` is the number
/// of the probe, counted from one; `healthy` is what it found.
pub fn after_probe(policy: &RetryPolicy, attempt: u32, healthy: bool) -> (step: ProbeStep)
    ensures
        step@ == step_after(*policy, attempt as int, healthy),
{
    if healthy {
        return ProbeStep::Ready;
    }
    if attempt >= policy.max_attempts {
        return ProbeStep::GiveUp {
            error: Error::new(
                ErrorKind::Provisioning,
                "disposable database",
                "it did not accept connections in time",
            ),
        };
    }
    let longest = policy.max_delay_ms;
    let mut delay = if policy.first_delay_ms <= longest {
        policy.first_delay_ms
    } else {
        longest
    };
    let mut made: u32 = 1;
    while made < attempt
        invariant
            1 <= made,
            made <= attempt || (attempt == 0 && made == 1),
            longest == policy.max_delay_ms,
            delay <= longest,
            delay == delay_after(*policy, made as int),
        decreases attempt - made,
    {
        delay = if delay > longest / 2 {
            longest
        } else {
            let doubled = delay * 2;
            if doubled <= longest {
                doubled
            } else {
                longest
            }
        };
        made += 1;
    }
    assert(delay == delay_after(*policy, attempt as int)) by {
        if attempt == 0 {
            assert(delay_after(*policy, 0) == delay_after(*policy, 1));
        }
    }
    ProbeStep::Wait { millis: delay }
}

} // verus!
