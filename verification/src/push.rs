//! Decisions of the push-based exporter.
//!
//! A push exporter repeats rounds. A round waits for the push interval or for the shutdown signal,
//! whichever comes first, sends the scraped metrics to the gateway, and looks at the outcome.
//! [`PushLoop`] is what such an exporter remembers from one round to the next; sending, waiting and
//! logging are left to its caller.
use vstd::prelude::*;

verus! {

/// Minimum interval between error logs, in nanoseconds. Prevents spamming logs if the push
/// interval is low.
pub const ERROR_LOG_INTERVAL_NANOS: u128 = 60_000_000_000;

/// Checks that an HTTP status code denotes success.
///
/// Calls `hyper::StatusCode::is_success`, which holds of the codes 200 to 299 and of no other.
/// A number that is no status code (`hyper::StatusCode::from_u16` takes 100 to 999) is no success.
#[verifier::external_body]
fn is_success(status: u16) -> (success: bool)
    ensures
        success == success_status(status),
{
    match hyper::StatusCode::from_u16(status) {
        Ok(code) => code.is_success(),
        Err(_) => false,
    }
}

/// The status codes with which a gateway accepts a push.
pub open spec fn success_status(status: u16) -> bool {
    200 <= status < 300
}

/// How the gateway answered a push.
#[derive(Clone, Copy, Debug, PartialEq, Eq)]
pub enum PushOutcome {
    /// The gateway sent a response with this status code.
    Response(u16),
    /// No response was received.
    TransportError,
}

impl PushOutcome {
    /// A push fails if it gets no response, or a response with a status that is no success.
    pub open spec fn failed(self) -> bool {
        match self {
            PushOutcome::Response(status) => !success_status(status),
            PushOutcome::TransportError => true,
        }
    }

    /// What there is to be logged about this outcome, if it is to be logged at all.
    pub open spec fn full_report(self) -> PushReport {
        match self {
            PushOutcome::Response(_) => PushReport::ErroneousResponse,
            PushOutcome::TransportError => PushReport::TransportError,
        }
    }
}

/// What to log about a push.
#[derive(Clone, Copy, Debug, PartialEq, Eq)]
pub enum PushReport {
    /// Log nothing.
    Nothing,
    /// Read the body of the response, and log it together with the status.
    ErroneousResponse,
    /// Log the error with which sending the request failed.
    TransportError,
}

/// What to do once a push has ended.
#[derive(Clone, Copy, Debug, PartialEq, Eq)]
pub struct PushStep {
    /// What to log.
    pub report: PushReport,
    /// Whether the push was the last one. If not, the next round starts.
    pub stop: bool,
}

/// State of a push exporter between its rounds.
#[derive(Clone, Copy, Debug, PartialEq, Eq)]
pub struct PushLoop {
    /// When an error was last logged, in nanoseconds on the clock of the caller.
    pub last_error_log: Option<u128>,
    /// Whether the shutdown signal has been received.
    pub shutdown_requested: bool,
}

/// Whether an error may be logged at the time `now`, if the last one was logged at `last`.
/// A clock that reads less than `last` counts as one at which no time has elapsed.
pub open spec fn may_log(last: Option<u128>, now: u128) -> bool {
    match last {
        None => true,
        Some(timestamp) => now - timestamp >= ERROR_LOG_INTERVAL_NANOS,
    }
}

impl PushLoop {
    /// The report on a push that ended at `now` in this state.
    pub open spec fn report_spec(self, outcome: PushOutcome, now: u128) -> PushReport {
        if outcome.failed() && may_log(self.last_error_log, now) {
            outcome.full_report()
        } else {
            PushReport::Nothing
        }
    }

    /// The state after a wait, which the shutdown signal did or did not end.
    pub open spec fn after_wait(self, shutdown: bool) -> PushLoop {
        PushLoop { last_error_log: self.last_error_log, shutdown_requested: shutdown }
    }

    /// The state after a push that ended at `now`.
    pub open spec fn after_push(self, outcome: PushOutcome, now: u128) -> PushLoop {
        PushLoop {
            last_error_log: if self.report_spec(outcome, now) is Nothing {
                self.last_error_log
            } else {
                Some(now)
            },
            shutdown_requested: self.shutdown_requested,
        }
    }

    /// Creates the state of an exporter that has not pushed anything.
    pub fn new() -> (state: Self)
        ensures
            state.last_error_log is None,
            !state.shutdown_requested,
    {
        PushLoop { last_error_log: None, shutdown_requested: false }
    }

    /// Takes note of the end of a wait. `shutdown` tells whether the shutdown signal ended it;
    /// otherwise the push interval has passed. Either way the next thing to do is to push.
    pub fn on_wait_ended(&mut self, shutdown: bool)
        ensures
            *final(self) == old(self).after_wait(shutdown),
    {
        self.shutdown_requested = shutdown;
    }

    /// Takes note of the outcome of a push that ended at the time `now`, and tells what to do.
    ///
    /// A failure is logged unless an error has been logged less than
    /// [`ERROR_LOG_INTERVAL_NANOS`] ago. The exporter goes on after a failure as it does after
    /// a success; it stops if the shutdown signal was received before this push.
    pub fn on_push_ended(&mut self, outcome: PushOutcome, now: u128) -> (step: PushStep)
        ensures
            *final(self) == old(self).after_push(outcome, now),
            step.report == old(self).report_spec(outcome, now),
            step.stop == old(self).shutdown_requested,
    {
        let should_log_error = match self.last_error_log {
            None => true,
            Some(timestamp) => now >= timestamp && now - timestamp >= ERROR_LOG_INTERVAL_NANOS,
        };
        let report = match outcome {
            PushOutcome::Response(status) => if !is_success(status) && should_log_error {
                PushReport::ErroneousResponse
            } else {
                PushReport::Nothing
            },
            PushOutcome::TransportError => if should_log_error {
                PushReport::TransportError
            } else {
                PushReport::Nothing
            },
        };
        match report {
            PushReport::Nothing => {},
            _ => {
                self.last_error_log = Some(now);
            },
        }
        PushStep { report, stop: self.shutdown_requested }
    }
}

/// A push is to be reported if no response came, or one whose status is not in the range from 200 to
/// 299, unless an error was logged less than a minute before. The time of a report is remembered,
/// and nothing else changes. A wait changes nothing but whether the shutdown signal is known to
/// have been received.
pub proof fn lemma_push_is_reported(state: PushLoop, outcome: PushOutcome, now: u128)
    ensures
        ({
            let report = state.report_spec(outcome, now);
            let after = state.after_push(outcome, now);
            let minute_passed = state.last_error_log matches Some(last) ==> now
                >= last + 60_000_000_000;
            &&& report is ErroneousResponse <==> (outcome matches PushOutcome::Response(status) && !(
            200 <= status <= 299) && minute_passed)
            &&& report is TransportError <==> outcome is TransportError && minute_passed
            &&& report is Nothing ==> after == state
            &&& report !is Nothing ==> after.last_error_log == Some(now)
            &&& after.shutdown_requested == state.shutdown_requested
        }),
        forall|shutdown: bool|
            {
                let waited = #[trigger] state.after_wait(shutdown);
                waited.shutdown_requested == shutdown && waited.last_error_log
                    == state.last_error_log
            },
{
}

/// One round of a push exporter, as seen from outside: what ended the wait, how the push ended,
/// and when.
pub struct Round {
    pub shutdown: bool,
    pub outcome: PushOutcome,
    pub at: u128,
}

/// The reports of an exporter that starts in `state` and meets `rounds`, one for each push.
/// The exporter takes part in the rounds until it stops.
pub open spec fn run(state: PushLoop, rounds: Seq<Round>) -> Seq<PushReport>
    decreases rounds.len(),
{
    if rounds.len() == 0 {
        seq![]
    } else {
        let round = rounds[0];
        let waited = state.after_wait(round.shutdown);
        let report = waited.report_spec(round.outcome, round.at);
        if waited.shutdown_requested {
            seq![report]
        } else {
            seq![report] + run(waited.after_push(round.outcome, round.at), rounds.drop_first())
        }
    }
}

/// Whether the clock readings of `rounds` never go back.
pub open spec fn clock_runs_forward(rounds: Seq<Round>) -> bool {
    forall|i: int, j: int| 0 <= i <= j < rounds.len() ==> rounds[i].at <= rounds[j].at
}

/// How many pushes the rounds lead to: all of them, up to and including the first one in which
/// the shutdown signal is received.
pub open spec fn push_count(rounds: Seq<Round>) -> nat
    decreases rounds.len(),
{
    if rounds.len() == 0 {
        0
    } else if rounds[0].shutdown {
        1
    } else {
        1 + push_count(rounds.drop_first())
    }
}

/// Metrics are pushed once in each round, whatever became of the pushes before it, and a last
/// time after the shutdown signal has been received.
pub proof fn lemma_pushes_until_shutdown(state: PushLoop, rounds: Seq<Round>)
    ensures
        run(state, rounds).len() == push_count(rounds),
        push_count(rounds) <= rounds.len(),
        forall|i: int| 0 <= i < push_count(rounds) - 1 ==> !#[trigger] rounds[i].shutdown,
        push_count(rounds) < rounds.len() ==> rounds[push_count(rounds) - 1].shutdown,
    decreases rounds.len(),
{
    if rounds.len() > 0 {
        let rest = rounds.drop_first();
        let next = state.after_wait(rounds[0].shutdown).after_push(rounds[0].outcome, rounds[0].at);
        lemma_pushes_until_shutdown(next, rest);
        if !rounds[0].shutdown {
            assert forall|i: int| 0 <= i < push_count(rounds) - 1 implies !(
            #[trigger] rounds[i].shutdown) by {
                if i > 0 {
                    assert(rest[i - 1] == rounds[i]);
                }
            }
        }
    }
}

proof fn lemma_reports_from(state: PushLoop, rounds: Seq<Round>, i: int)
    requires
        clock_runs_forward(rounds),
        0 <= i < run(state, rounds).len(),
    ensures
        run(state, rounds).len() <= rounds.len(),
        (run(state, rounds)[i] !is Nothing) <==> {
            &&& rounds[i].outcome.failed()
            &&& may_log(state.last_error_log, rounds[i].at)
            &&& forall|j: int|
                0 <= j < i && #[trigger] run(state, rounds)[j] !is Nothing ==> rounds[i].at
                    - rounds[j].at >= ERROR_LOG_INTERVAL_NANOS
        },
        run(state, rounds)[i] !is Nothing ==> run(state, rounds)[i]
            == rounds[i].outcome.full_report(),
    decreases rounds.len(),
{
    let reports = run(state, rounds);
    let rest = rounds.drop_first();
    let waited = state.after_wait(rounds[0].shutdown);
    let next = waited.after_push(rounds[0].outcome, rounds[0].at);
    lemma_pushes_until_shutdown(state, rounds);
    if i > 0 {
        let later = run(next, rest);
        assert(reports =~= seq![reports[0]] + later);
        assert(clock_runs_forward(rest)) by {
            assert forall|a: int, b: int| 0 <= a <= b < rest.len() implies rest[a].at
                <= rest[b].at by {
                assert(rest[a] == rounds[a + 1]);
                assert(rest[b] == rounds[b + 1]);
            }
        }
        lemma_reports_from(next, rest, i - 1);
        assert(rest[i - 1] == rounds[i]);
        assert(later[i - 1] == reports[i]);
        assert(rounds[0].at <= rounds[i].at);
        assert forall|j: int| 0 <= j < i - 1 implies #[trigger] later[j] == reports[j + 1]
            && rest[j] == rounds[j + 1] by {}
        if reports[i] !is Nothing {
            assert forall|j: int|
                0 <= j < i && #[trigger] reports[j] !is Nothing implies rounds[i].at - rounds[j].at
                >= ERROR_LOG_INTERVAL_NANOS by {
                if j > 0 {
                    assert(later[j - 1] == reports[j]);
                }
            }
        } else if rounds[i].outcome.failed() && may_log(state.last_error_log, rounds[i].at) && (
        forall|j: int|
            0 <= j < i && #[trigger] reports[j] !is Nothing ==> rounds[i].at - rounds[j].at
                >= ERROR_LOG_INTERVAL_NANOS) {
            assert forall|j: int| 0 <= j < i - 1 && #[trigger] later[j] !is Nothing implies rest[i
                - 1].at - rest[j].at >= ERROR_LOG_INTERVAL_NANOS by {
                assert(reports[j + 1] == later[j]);
            }
            assert(reports[0] !is Nothing ==> may_log(next.last_error_log, rounds[i].at));
            assert(false);
        }
    }
}

/// A push is reported on if and only if it failed and no report was made in the interval before
/// it. In particular any two reports are at least [`ERROR_LOG_INTERVAL_NANOS`] apart, the first
/// failure is reported, and a success never is.
pub proof fn lemma_reports_are_rate_limited(rounds: Seq<Round>, i: int)
    requires
        clock_runs_forward(rounds),
        0 <= i < push_count(rounds),
    ensures
        ({
            let start = PushLoop { last_error_log: None, shutdown_requested: false };
            let reports = run(start, rounds);
            &&& reports.len() == push_count(rounds)
            &&& reports[i] == PushReport::Nothing || reports[i] == rounds[i].outcome.full_report()
            &&& reports[i] !is Nothing <==> {
                &&& rounds[i].outcome.failed()
                &&& forall|j: int|
                    0 <= j < i && #[trigger] reports[j] !is Nothing ==> rounds[i].at - rounds[j].at
                        >= ERROR_LOG_INTERVAL_NANOS
            }
        }),
{
    let start = PushLoop { last_error_log: None, shutdown_requested: false };
    lemma_pushes_until_shutdown(start, rounds);
    lemma_reports_from(start, rounds, i);
}

/// In each round up to the one in which the shutdown signal is received, and in that one, metrics
/// are pushed. A response whose status is not in the range from 200 to 299, or the lack of
/// a response, is reported as what it is unless there was a report in the minute before; a response
/// with a status in that range never is. The first failure is always reported.
pub proof fn lemma_run(rounds: Seq<Round>, i: int)
    requires
        forall|i: int, j: int| 0 <= i <= j < rounds.len() ==> rounds[i].at <= rounds[j].at,
        0 <= i < rounds.len(),
        forall|j: int| 0 <= j < i ==> !(#[trigger] rounds[j]).shutdown,
    ensures
        ({
            let reports = run(
                PushLoop { last_error_log: None, shutdown_requested: false },
                rounds,
            );
            let quiet = forall|j: int|
                0 <= j < i && #[trigger] reports[j] !is Nothing ==> rounds[i].at >= rounds[j].at
                    + 60_000_000_000;
            &&& i < reports.len() <= rounds.len()
            &&& rounds[i].shutdown ==> reports.len() == i + 1
            &&& reports[i] is ErroneousResponse <==> (
            rounds[i].outcome matches PushOutcome::Response(status) && !(200 <= status <= 299)
                && quiet)
            &&& reports[i] is TransportError <==> rounds[i].outcome is TransportError && quiet
            &&& (forall|j: int|
                0 <= j < i ==> ((#[trigger] rounds[j]).outcome matches PushOutcome::Response(status)
                    && 200 <= status <= 299)) ==> quiet
        }),
{
    let start = PushLoop { last_error_log: None, shutdown_requested: false };
    let reports = run(start, rounds);
    lemma_pushes_until_shutdown(start, rounds);
    let count = push_count(rounds);
    assert(count > 0);
    if count <= i {
        assert(rounds[count - 1].shutdown);
    }
    lemma_reports_are_rate_limited(rounds, i);
    if forall|j: int|
        0 <= j < i ==> ((#[trigger] rounds[j]).outcome matches PushOutcome::Response(status) && 200
            <= status <= 299) {
        assert forall|j: int| 0 <= j < i implies #[trigger] reports[j] is Nothing by {
            assert(rounds[j].outcome is Response);
            lemma_reports_are_rate_limited(rounds, j);
        }
    }
}

} // verus!
