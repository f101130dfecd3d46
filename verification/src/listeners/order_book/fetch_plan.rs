//! How often, and how far apart, a snapshot is asked for.

use vstd::arithmetic::power2::{lemma2_to64, lemma_pow2_unfold, pow2};
use vstd::prelude::*;

verus! {

/// How long, in seconds, the node may take to answer. It answers within a fraction of a second
/// most of the time; a slow disk while it writes the snapshot is allowed for.
pub const SNAPSHOT_FETCH_TIMEOUT_SECS: u64 = 30;

/// How often a snapshot is asked for while the node cannot be reached. It is away for some
/// five to thirty seconds when it restarts.
pub const SNAPSHOT_FETCH_MAX_ATTEMPTS: u32 = 5;

/// How long, in seconds, the first wait is. Each later one is twice as long.
pub const SNAPSHOT_FETCH_INITIAL_BACKOFF_SECS: u64 = 1;

/// What came of one attempt.
#[derive(Clone, Copy, Debug, PartialEq, Eq, Structural)]
pub enum PostOutcome {
    /// The node has written the snapshot.
    Accepted,
    /// The node has answered with an error.
    Rejected,
    /// There was no answer.
    NoAnswer { connect: bool, timeout: bool, request: bool },
}

/// What to do after an attempt.
#[derive(Debug)]
pub enum FetchStep {
    /// The snapshot can be read.
    Done,
    /// Ask no more. Another attempt would not help.
    GiveUp,
    /// Wait so many seconds, then ask again.
    RetryAfter { secs: u64, plan: FetchPlan },
    /// Wait so many seconds, then ask no more: that was the last attempt.
    GiveUpAfter { secs: u64 },
}

/// The attempt may succeed when made again: the node was out of reach.
pub open spec fn is_transient(outcome: PostOutcome) -> bool {
    outcome matches PostOutcome::NoAnswer { connect, timeout, request } && (connect || timeout
        || request)
}

/// What to do after an attempt, by its number.
pub ghost enum FetchStepView {
    Done,
    GiveUp,
    RetryAfter { secs: nat, attempt: nat },
    GiveUpAfter { secs: nat },
}

impl View for FetchStep {
    type V = FetchStepView;

    open spec fn view(&self) -> FetchStepView {
        match self {
            FetchStep::Done => FetchStepView::Done,
            FetchStep::GiveUp => FetchStepView::GiveUp,
            FetchStep::RetryAfter { secs, plan } => FetchStepView::RetryAfter {
                secs: *secs as nat,
                attempt: plan@,
            },
            FetchStep::GiveUpAfter { secs } => FetchStepView::GiveUpAfter { secs: *secs as nat },
        }
    }
}

/// What to do after an attempt.
pub open spec fn step_after(attempt: nat, outcome: PostOutcome) -> FetchStepView {
    if outcome is Accepted {
        FetchStepView::Done
    } else if !is_transient(outcome) {
        FetchStepView::GiveUp
    } else if attempt < SNAPSHOT_FETCH_MAX_ATTEMPTS {
        FetchStepView::RetryAfter { secs: backoff_secs(attempt), attempt: attempt + 1 }
    } else {
        FetchStepView::GiveUpAfter { secs: backoff_secs(attempt) }
    }
}

/// How long, in seconds, the wait after an attempt is that failed for the time being.
pub open spec fn backoff_secs(attempt: nat) -> nat {
    SNAPSHOT_FETCH_INITIAL_BACKOFF_SECS as nat * pow2((attempt - 1) as nat)
}

/// How long, in seconds, the waits after the first `attempts` attempts are in all.
pub open spec fn total_backoff_secs(attempts: nat) -> nat
    decreases attempts,
{
    if attempts == 0 {
        0
    } else {
        total_backoff_secs((attempts - 1) as nat) + backoff_secs(attempts)
    }
}

/// The waits after some attempts add up to one second less than the next wait.
pub proof fn lemma_total_backoff(attempts: nat)
    ensures
        total_backoff_secs(attempts) + 1 == backoff_secs(attempts + 1),
    decreases attempts,
{
    lemma2_to64();
    if attempts > 0 {
        lemma_total_backoff((attempts - 1) as nat);
        lemma_pow2_unfold(attempts);
    }
}

/// A node that is out of reach is waited for over half a minute before it is given up.
pub proof fn lemma_retry_budget()
    ensures
        total_backoff_secs(SNAPSHOT_FETCH_MAX_ATTEMPTS as nat) == 31,
{
    lemma2_to64();
    lemma_total_backoff(SNAPSHOT_FETCH_MAX_ATTEMPTS as nat);
}

/// The attempts that are left.
#[derive(Debug)]
pub struct FetchPlan {
    attempt: u32,
    backoff: u64,
}

impl View for FetchPlan {
    type V = nat;

    /// The number of the attempt that is made next, counted from one.
    closed spec fn view(&self) -> nat {
        self.attempt as nat
    }
}

impl FetchPlan {
    #[verifier::type_invariant]
    spec fn well_formed(self) -> bool {
        &&& 1 <= self.attempt <= SNAPSHOT_FETCH_MAX_ATTEMPTS
        &&& self.backoff == backoff_secs(self.attempt as nat)
    }

    pub fn new() -> (plan: FetchPlan)
        ensures
            plan@ == 1,
    {
        proof {
            lemma2_to64();
        }
        FetchPlan { attempt: 1, backoff: SNAPSHOT_FETCH_INITIAL_BACKOFF_SECS }
    }

    /// The number of the attempt that is made next, counted from one.
    pub fn attempt(&self) -> (attempt: u32)
        ensures
            attempt == self@,
            1 <= attempt <= SNAPSHOT_FETCH_MAX_ATTEMPTS,
    {
        proof {
            use_type_invariant(self);
        }
        self.attempt
    }

    /// What to do after the attempt. An answer is never asked for again; without one, another
    /// attempt is made after a wait, as long as any is left.
    pub fn after(self, outcome: PostOutcome) -> (step: FetchStep)
        ensures
            step is Done <==> outcome is Accepted,
            step is GiveUp <==> !(outcome is Accepted) && !is_transient(outcome),
            step is RetryAfter <==> is_transient(outcome) && self@ < SNAPSHOT_FETCH_MAX_ATTEMPTS,
            step is GiveUpAfter <==> is_transient(outcome) && self@ >= SNAPSHOT_FETCH_MAX_ATTEMPTS,
            step matches FetchStep::RetryAfter { secs, plan } ==> secs == backoff_secs(self@)
                && plan@ == self@ + 1,
            step matches FetchStep::GiveUpAfter { secs } ==> secs == backoff_secs(self@),
            step@ == step_after(self@, outcome),
    {
        proof {
            use_type_invariant(&self);
            lemma2_to64();
            lemma_pow2_unfold(self.attempt as nat);
        }
        let transient = match outcome {
            PostOutcome::Accepted => {
                return FetchStep::Done;
            },
            PostOutcome::Rejected => false,
            PostOutcome::NoAnswer { connect, timeout, request } => connect || timeout || request,
        };
        if !transient {
            return FetchStep::GiveUp;
        }
        if self.attempt == SNAPSHOT_FETCH_MAX_ATTEMPTS {
            return FetchStep::GiveUpAfter { secs: self.backoff };
        }
        FetchStep::RetryAfter {
            secs: self.backoff,
            plan: FetchPlan { attempt: self.attempt + 1, backoff: self.backoff * 2 },
        }
    }
}

} // verus!
