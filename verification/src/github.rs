//! A GitHub call as a journaled step: what one attempt records, how rate limits are waited
//! out, and what the settled result means to whoever asked.

use vstd::prelude::*;

use crate::fault::{terminal, Fault, RetryPolicy, RetryableServiceError};
use crate::model::{rejected, ActionOutcome, Operation, RejectReason};
use crate::text::{decimal, decimal_text};

verus! {

/// How many rate-limit waits in a row one step honours before it fails for good.
pub const MAX_RATE_LIMIT_WAITS: u32 = 3;

/// What GitHub said when it did not do as asked.
#[derive(Debug, PartialEq, Eq)]
pub struct GithubErrorResponse {
    pub status: u16,
    pub message: String,
    pub retry_after_seconds: Option<u64>,
    pub rate_limit_remaining: Option<u64>,
    pub rate_limit_reset: Option<u64>,
}

impl Clone for GithubErrorResponse {
    fn clone(&self) -> (copy: Self)
        ensures
            copy == *self,
    {
        GithubErrorResponse {
            status: self.status,
            message: self.message.clone(),
            retry_after_seconds: self.retry_after_seconds,
            rate_limit_remaining: self.rate_limit_remaining,
            rate_limit_reset: self.rate_limit_reset,
        }
    }
}

/// How a GitHub call fails.
#[derive(Debug, PartialEq, Eq)]
pub enum GithubError {
    Http(GithubErrorResponse),
    /// An answer about a pull request the call itself had just read.
    HttpKnown(GithubErrorResponse),
    StaleSha { expected: String, actual: String },
    Transport(String),
    Protocol(String),
    Config(String),
}

/// What is made of an error response.
#[derive(Debug, PartialEq, Eq)]
pub enum Classification {
    Retryable,
    /// To be left alone until this moment, in Unix seconds.
    RateLimited { until: u64 },
    Rejected(RejectReason),
    Fatal,
}

/// What one attempt of a step records. Transient failures are not recorded: they fail the
/// attempt, and the step's bounded retry policy makes it again.
#[derive(Debug, PartialEq, Eq)]
pub enum Attempt<T> {
    Settled(Settled<T>),
    RateLimited { until: u64, response: GithubErrorResponse },
}

/// The result of a step once every wait and retry has been honoured.
#[derive(Debug, PartialEq, Eq)]
pub enum Settled<T> {
    Done(T),
    Rejected { reason: RejectReason, response: GithubErrorResponse },
    Fatal { response: GithubErrorResponse },
    StaleSha { expected: String, actual: String },
}

/// A merge that landed.
#[derive(Debug, PartialEq, Eq)]
pub struct Merged {
    pub detail: String,
    pub sha: Option<String>,
}

/// What an attempt records of an error response, given what is made of it.
pub open spec fn classified<T>(
    response: GithubErrorResponse,
    classification: Classification,
) -> Result<Attempt<T>, Fault> {
    match classification {
        Classification::Retryable => Err(
            Fault::Retryable(RetryableServiceError::Github(response.message)),
        ),
        Classification::RateLimited { until } => Ok(Attempt::RateLimited { until, response }),
        Classification::Rejected(reason) => Ok(
            Attempt::Settled(Settled::Rejected { reason, response }),
        ),
        Classification::Fatal => Ok(Attempt::Settled(Settled::Fatal { response })),
    }
}

/// The error response a call ended with, and whether it is about a known resource.
pub open spec fn error_response<T>(
    result: Result<T, GithubError>,
    known_resource: bool,
) -> Option<(GithubErrorResponse, bool)> {
    match result {
        Err(GithubError::Http(response)) => Some((response, known_resource)),
        Err(GithubError::HttpKnown(response)) => Some((response, true)),
        _ => None,
    }
}

/// What an attempt records of a result that is no error response.
pub open spec fn unclassified<T>(result: Result<T, GithubError>) -> Result<Attempt<T>, Fault> {
    match result {
        Ok(value) => Ok(Attempt::Settled(Settled::Done(value))),
        Err(GithubError::StaleSha { expected, actual }) => Ok(
            Attempt::Settled(Settled::StaleSha { expected, actual }),
        ),
        Err(GithubError::Transport(message)) => Err(
            Fault::Retryable(RetryableServiceError::Github(message)),
        ),
        Err(GithubError::Protocol(message)) => Err(Fault::Terminal(message)),
        Err(GithubError::Config(message)) => Err(Fault::Terminal(message)),
        Err(GithubError::Http(response)) => Err(Fault::Terminal(response.message)),
        Err(GithubError::HttpKnown(response)) => Err(Fault::Terminal(response.message)),
    }
}

/// What one attempt records of a GitHub call's result, or how the attempt fails. Only an
/// error response is classified, as of `now`, and one about a pull request the call had
/// just read is about a known resource whatever the caller knew.
pub fn journal_github_result<
    T,
    C: Fn(&GithubErrorResponse, Operation, bool, u64) -> Classification,
>(
    result: Result<T, GithubError>,
    operation: Operation,
    known_resource: bool,
    now: u64,
    classify: C,
) -> (recorded: Result<Attempt<T>, Fault>)
    requires
        forall|response: &GithubErrorResponse, known: bool|
            #[trigger] call_requires(classify, (response, operation, known, now)),
    ensures
        error_response(result, known_resource) is None ==> recorded == unclassified(result),
        error_response(result, known_resource) matches Some((response, known)) ==> exists|
            classification: Classification,
        |
            #[trigger] call_ensures(
                classify,
                (&response, operation, known, now),
                classification,
            ) && recorded == classified::<T>(response, classification),
{
    let ghost said = error_response(result, known_resource);
    let (response, known) = match result {
        Ok(value) => {
            return Ok(Attempt::Settled(Settled::Done(value)));
        },
        Err(GithubError::Http(response)) => (response, known_resource),
        Err(GithubError::HttpKnown(response)) => (response, true),
        Err(GithubError::StaleSha { expected, actual }) => {
            return Ok(Attempt::Settled(Settled::StaleSha { expected, actual }));
        },
        Err(GithubError::Transport(message)) => {
            return Err(Fault::Retryable(RetryableServiceError::Github(message)));
        },
        Err(GithubError::Protocol(message)) => {
            return Err(Fault::Terminal(message));
        },
        Err(GithubError::Config(message)) => {
            return Err(Fault::Terminal(message));
        },
    };
    let classification = classify(&response, operation, known, now);
    assert(said == Some((response, known)));
    assert(call_ensures(classify, (&response, operation, known, now), classification));
    match classification {
        Classification::Retryable => Err(
            Fault::Retryable(RetryableServiceError::Github(response.message)),
        ),
        Classification::RateLimited { until } => Ok(Attempt::RateLimited { until, response }),
        Classification::Rejected(reason) => Ok(
            Attempt::Settled(Settled::Rejected { reason, response }),
        ),
        Classification::Fatal => Ok(Attempt::Settled(Settled::Fatal { response })),
    }
}

/// An error response that itself says its resource is known is journaled as an ordinary one
/// about a known resource is, whatever the caller knew: as what is made of a response about a
/// known resource.
pub proof fn law_a_response_known_of_itself_is_about_a_known_resource<
    T,
    C: Fn(&GithubErrorResponse, Operation, bool, u64) -> Classification,
>(
    response: GithubErrorResponse,
    operation: Operation,
    known_resource: bool,
    now: u64,
    classify: C,
    classification: Classification,
    known: Result<Attempt<T>, Fault>,
    ordinary: Result<Attempt<T>, Fault>,
)
    requires
        forall|made: Classification| #[trigger]
            call_ensures(classify, (&response, operation, true, now), made) ==> made
                == classification,
        call_ensures(
            journal_github_result::<T, C>,
            (
                Err::<T, GithubError>(GithubError::HttpKnown(response)),
                operation,
                known_resource,
                now,
                classify,
            ),
            known,
        ),
        call_ensures(
            journal_github_result::<T, C>,
            (
                Err::<T, GithubError>(GithubError::Http(response)),
                operation,
                true,
                now,
                classify,
            ),
            ordinary,
        ),
    ensures
        known == ordinary,
        known == classified::<T>(response, classification),
{
}

/// What a step asks for after an attempt.
#[derive(Debug, PartialEq, Eq)]
pub enum StepNext<T> {
    Settled(Settled<T>),
    /// Wait durably until this moment, in Unix seconds, and attempt the call again.
    SleepUntil(u64),
    /// Fail for good.
    GiveUp(String),
}

/// One GitHub step between its attempts.
#[derive(Debug, PartialEq, Eq)]
pub struct GithubStep {
    pub name: String,
    /// How many rate limits have been waited out.
    pub waits: u32,
}

/// The message a step gives up with.
pub open spec fn gave_up(name: Seq<char>, until: u64, message: Seq<char>) -> Seq<char> {
    "GitHub kept rate limiting "@ + name + " after "@ + decimal(MAX_RATE_LIMIT_WAITS as nat)
        + " waits; last reset at "@ + decimal(until as nat) + ": "@ + message
}

/// What follows an attempt of a step.
pub open spec fn goes_on<T>(
    before: GithubStep,
    attempt: Attempt<T>,
    after: GithubStep,
    next: StepNext<T>,
) -> bool {
    &&& after.name == before.name
    &&& match attempt {
        Attempt::Settled(settled) => next == StepNext::Settled(settled) && after.waits
            == before.waits,
        Attempt::RateLimited { until, response } => if before.waits < MAX_RATE_LIMIT_WAITS {
            next == StepNext::<T>::SleepUntil(until) && after.waits == before.waits + 1
        } else {
            &&& next matches StepNext::GiveUp(message)
            &&& message@ == gave_up(before.name@, until, response.message@)
            &&& after.waits == before.waits
        },
    }
}

impl GithubStep {
    pub open spec fn wf(self) -> bool {
        self.waits <= MAX_RATE_LIMIT_WAITS
    }

    pub fn new(name: &str) -> (step: GithubStep)
        ensures
            step.wf(),
            step.name@ == name@,
            step.waits == 0,
    {
        GithubStep { name: name.to_owned(), waits: 0 }
    }

    /// What follows an attempt: its settled result, a wait for the advertised deadline, or
    /// failure once the waits are used up.
    pub fn attempted<T>(&mut self, attempt: Attempt<T>) -> (next: StepNext<T>)
        requires
            old(self).wf(),
        ensures
            final(self).wf(),
            goes_on(*old(self), attempt, *final(self), next),
    {
        match attempt {
            Attempt::Settled(settled) => StepNext::Settled(settled),
            Attempt::RateLimited { until, response } => {
                if self.waits == MAX_RATE_LIMIT_WAITS {
                    let mut message = "GitHub kept rate limiting ".to_owned();
                    message.append(self.name.as_str());
                    message.append(" after ");
                    message.append(decimal_text(MAX_RATE_LIMIT_WAITS as u64).as_str());
                    message.append(" waits; last reset at ");
                    message.append(decimal_text(until).as_str());
                    message.append(": ");
                    message.append(response.message.as_str());
                    return StepNext::GiveUp(message);
                }
                self.waits += 1;
                StepNext::SleepUntil(until)
            },
        }
    }
}

/// How long to sleep to reach a moment, in seconds; a moment already past is no wait.
pub fn sleep_seconds(until: u64, now: u64) -> (seconds: u64)
    ensures
        seconds == (if until > now {
            until - now
        } else {
            0
        }),
{
    until.saturating_sub(now)
}

/// However its attempts go, a step never sleeps more than [`MAX_RATE_LIMIT_WAITS`] times: of
/// attempts that each end in a sleep there are no more than that.
pub proof fn law_waits_are_bounded<T>(
    steps: Seq<GithubStep>,
    attempts: Seq<Attempt<T>>,
    nexts: Seq<StepNext<T>>,
)
    requires
        steps.len() == attempts.len() + 1,
        nexts.len() == attempts.len(),
        steps[0].waits == 0,
        forall|i: int|
            0 <= i < attempts.len() ==> #[trigger] goes_on(
                steps[i],
                attempts[i],
                steps[i + 1],
                nexts[i],
            ),
        forall|i: int| 0 <= i < nexts.len() ==> (#[trigger] nexts[i]) is SleepUntil,
    ensures
        attempts.len() <= MAX_RATE_LIMIT_WAITS,
        steps.last().waits == attempts.len(),
    decreases attempts.len(),
{
    if attempts.len() > 0 {
        let last = attempts.len() - 1;
        let earlier = steps.drop_last();
        assert forall|i: int| 0 <= i < last implies #[trigger] goes_on(
            earlier[i],
            attempts.drop_last()[i],
            earlier[i + 1],
            nexts.drop_last()[i],
        ) by {
            assert(goes_on(steps[i], attempts[i], steps[i + 1], nexts[i]));
        }
        assert forall|i: int| 0 <= i < last implies (
        #[trigger] nexts.drop_last()[i]) is SleepUntil by {
            assert(nexts[i] is SleepUntil);
        }
        law_waits_are_bounded(earlier, attempts.drop_last(), nexts.drop_last());
        assert(goes_on(steps[last], attempts[last], steps[last + 1], nexts[last]));
        assert(nexts[last] is SleepUntil);
    }
}

/// The backoff of a GitHub call: transient failures back off from one second to five minutes
/// and give up after thirty minutes.
pub fn github_retry_policy() -> (policy: RetryPolicy)
    ensures
        policy == (RetryPolicy {
            initial_delay_millis: 1_000,
            factor: 2,
            max_delay_millis: 300_000,
            max_duration_millis: Some(1_800_000u64),
        }),
{
    RetryPolicy {
        initial_delay_millis: 1_000,
        factor: 2,
        max_delay_millis: 300_000,
        max_duration_millis: Some(1_800_000),
    }
}

/// The message of an answer nothing can be made of.
pub open spec fn http_failure(what: Seq<char>, response: GithubErrorResponse) -> Seq<char> {
    what + decimal(response.status as nat) + ": "@ + response.message@
}

fn http_failure_text(what: &str, response: &GithubErrorResponse) -> (text: String)
    ensures
        text@ == http_failure(what@, *response),
{
    let mut text = what.to_owned();
    text.append(decimal_text(response.status as u64).as_str());
    text.append(": ");
    text.append(response.message.as_str());
    text
}

/// What a read came to. A read has no outcome to carry a rejection, so one fails for good.
pub fn read_result<T>(result: Settled<T>) -> (read: Result<T, Fault>)
    ensures
        match result {
            Settled::Done(value) => read == Ok::<T, Fault>(value),
            Settled::Rejected { reason, .. } => terminal(read, reason.spec_text()),
            Settled::Fatal { response } => terminal(
                read,
                http_failure("GitHub read failed with HTTP "@, response),
            ),
            Settled::StaleSha { .. } => terminal(
                read,
                "unexpected stale SHA while reading GitHub"@,
            ),
        },
{
    match result {
        Settled::Done(value) => Ok(value),
        Settled::Rejected { reason, .. } => Err(Fault::Terminal(reason.text())),
        Settled::Fatal { response } => Err(
            Fault::Terminal(http_failure_text("GitHub read failed with HTTP ", &response)),
        ),
        Settled::StaleSha { .. } => Err(
            Fault::Terminal("unexpected stale SHA while reading GitHub".to_owned()),
        ),
    }
}

/// What a mutation that GitHub answered with a result of its own came to: a rejection is an
/// outcome, and only a fatal answer fails.
pub open spec fn mutation_came_to<T>(
    result: Settled<T>,
    succeeded: ActionOutcome,
    came_to: Result<ActionOutcome, Fault>,
) -> bool {
    match result {
        Settled::Done(_) => came_to == Ok::<ActionOutcome, Fault>(succeeded),
        Settled::StaleSha { expected, actual } => came_to == Ok::<ActionOutcome, Fault>(
            ActionOutcome::Rejected { reason: RejectReason::StaleSha { expected, actual } },
        ),
        Settled::Rejected { reason, .. } => came_to == Ok::<ActionOutcome, Fault>(
            ActionOutcome::Rejected { reason },
        ),
        Settled::Fatal { response } => terminal(
            came_to,
            http_failure("GitHub mutation failed with HTTP "@, response),
        ),
    }
}

/// What a comment or a branch update came to.
pub fn action_result(result: Settled<String>) -> (came_to: Result<ActionOutcome, Fault>)
    ensures
        mutation_came_to(
            result,
            ActionOutcome::Succeeded { detail: result->Done_0, merge_sha: None },
            came_to,
        ),
        result matches Settled::Rejected { reason, .. } ==> came_to == Ok::<ActionOutcome, Fault>(
            ActionOutcome::Rejected { reason },
        ),
{
    match result {
        Settled::Done(detail) => Ok(ActionOutcome::Succeeded { detail, merge_sha: None }),
        Settled::StaleSha { expected, actual } => Ok(
            rejected(RejectReason::StaleSha { expected, actual }),
        ),
        Settled::Rejected { reason, .. } => Ok(rejected(reason)),
        Settled::Fatal { response } => Err(
            Fault::Terminal(http_failure_text("GitHub mutation failed with HTTP ", &response)),
        ),
    }
}

/// What a merge came to. One that landed carries the commit it made.
pub fn merge_result(result: Settled<Merged>) -> (came_to: Result<ActionOutcome, Fault>)
    ensures
        mutation_came_to(
            result,
            ActionOutcome::Succeeded {
                detail: result->Done_0.detail,
                merge_sha: result->Done_0.sha,
            },
            came_to,
        ),
        result matches Settled::Rejected { reason, .. } ==> came_to == Ok::<ActionOutcome, Fault>(
            ActionOutcome::Rejected { reason },
        ),
{
    match result {
        Settled::Done(merged) => Ok(
            ActionOutcome::Succeeded { detail: merged.detail, merge_sha: merged.sha },
        ),
        Settled::StaleSha { expected, actual } => Ok(
            rejected(RejectReason::StaleSha { expected, actual }),
        ),
        Settled::Rejected { reason, .. } => Ok(rejected(reason)),
        Settled::Fatal { response } => Err(
            Fault::Terminal(http_failure_text("GitHub mutation failed with HTTP ", &response)),
        ),
    }
}

/// A mutation that GitHub rejects is answered as rejected for the very reason it was rejected
/// for, whatever the reason and whatever else the response says.
pub proof fn law_a_rejection_keeps_its_reason(
    reason: RejectReason,
    response: GithubErrorResponse,
    merged: Result<ActionOutcome, Fault>,
    acted: Result<ActionOutcome, Fault>,
)
    requires
        call_ensures(merge_result, (Settled::Rejected { reason, response },), merged),
        call_ensures(action_result, (Settled::Rejected { reason, response },), acted),
    ensures
        merged == Ok::<ActionOutcome, Fault>(ActionOutcome::Rejected { reason }),
        acted == Ok::<ActionOutcome, Fault>(ActionOutcome::Rejected { reason }),
{
}

/// A mutation that landed is answered with what GitHub said of it; a merge also with the commit
/// it made, and nothing else with any.
pub proof fn law_a_mutation_that_landed_says_what_github_said(
    merge: Merged,
    said: String,
    merged: Result<ActionOutcome, Fault>,
    acted: Result<ActionOutcome, Fault>,
)
    requires
        call_ensures(merge_result, (Settled::Done(merge),), merged),
        call_ensures(action_result, (Settled::Done(said),), acted),
    ensures
        merged matches Ok(ActionOutcome::Succeeded { detail, merge_sha }) && detail == merge.detail
            && merge_sha == merge.sha,
        acted matches Ok(ActionOutcome::Succeeded { detail, merge_sha }) && detail == said
            && merge_sha is None,
{
}

/// A head that moved under a mutation is a rejection that names both heads, each as what it is.
pub proof fn law_a_moved_head_is_rejected_with_both_heads(
    expected: String,
    actual: String,
    merged: Result<ActionOutcome, Fault>,
    acted: Result<ActionOutcome, Fault>,
)
    requires
        call_ensures(merge_result, (Settled::<Merged>::StaleSha { expected, actual },), merged),
        call_ensures(action_result, (Settled::<String>::StaleSha { expected, actual },), acted),
    ensures
        merged == Ok::<ActionOutcome, Fault>(
            ActionOutcome::Rejected { reason: RejectReason::StaleSha { expected, actual } },
        ),
        acted == merged,
{
}

/// An answer that nothing can be made of fails the handler for good, with the status and
/// GitHub's own words; a read and a mutation each say which they were.
pub proof fn law_a_fatal_answer_fails_for_good<T>(
    response: GithubErrorResponse,
    read: Result<T, Fault>,
    merged: Result<ActionOutcome, Fault>,
    acted: Result<ActionOutcome, Fault>,
)
    requires
        call_ensures(read_result::<T>, (Settled::<T>::Fatal { response },), read),
        call_ensures(merge_result, (Settled::<Merged>::Fatal { response },), merged),
        call_ensures(action_result, (Settled::<String>::Fatal { response },), acted),
    ensures
        read matches Err(Fault::Terminal(message)) && message@ == "GitHub read failed with HTTP "@
            + decimal(response.status as nat) + ": "@ + response.message@,
        merged matches Err(Fault::Terminal(message)) && message@
            == "GitHub mutation failed with HTTP "@ + decimal(response.status as nat) + ": "@
            + response.message@,
        acted matches Err(Fault::Terminal(message)) && message@
            == "GitHub mutation failed with HTTP "@ + decimal(response.status as nat) + ": "@
            + response.message@,
{
}

/// A read gives what was read and nothing in its place: a rejection fails it for good, saying
/// why, and so does a head that moved, which no read can meet.
pub proof fn law_a_read_gives_what_was_read_or_fails<T>(
    value: T,
    reason: RejectReason,
    why: String,
    response: GithubErrorResponse,
    expected: String,
    actual: String,
    done: Result<T, Fault>,
    rejected: Result<T, Fault>,
    stale: Result<T, Fault>,
)
    requires
        call_ensures(read_result::<T>, (Settled::Done(value),), done),
        call_ensures(RejectReason::text, (&reason,), why),
        call_ensures(read_result::<T>, (Settled::<T>::Rejected { reason, response },), rejected),
        call_ensures(read_result::<T>, (Settled::<T>::StaleSha { expected, actual },), stale),
    ensures
        done == Ok::<T, Fault>(value),
        rejected matches Err(Fault::Terminal(message)) && message@ == why@,
        stale is Err && stale->Err_0 is Terminal,
{
}

/// What a call ended with is journaled as that: a value as done, a moved head as such, a lost
/// connection as worth another attempt, and an answer or a setting that makes no sense as
/// final.
pub proof fn law_a_call_is_journaled_as_it_ended<
    T,
    C: Fn(&GithubErrorResponse, Operation, bool, u64) -> Classification,
>(
    result: Result<T, GithubError>,
    operation: Operation,
    known_resource: bool,
    now: u64,
    classify: C,
    recorded: Result<Attempt<T>, Fault>,
)
    requires
        call_ensures(
            journal_github_result::<T, C>,
            (result, operation, known_resource, now, classify),
            recorded,
        ),
    ensures
        match result {
            Ok(value) => recorded == Ok::<Attempt<T>, Fault>(
                Attempt::Settled(Settled::Done(value)),
            ),
            Err(GithubError::StaleSha { expected, actual }) => recorded == Ok::<Attempt<T>, Fault>(
                Attempt::Settled(Settled::StaleSha { expected, actual }),
            ),
            Err(GithubError::Transport(message)) => recorded == Err::<Attempt<T>, Fault>(
                Fault::Retryable(RetryableServiceError::Github(message)),
            ),
            Err(GithubError::Protocol(message)) => recorded == Err::<Attempt<T>, Fault>(
                Fault::Terminal(message),
            ),
            Err(GithubError::Config(message)) => recorded == Err::<Attempt<T>, Fault>(
                Fault::Terminal(message),
            ),
            _ => true,
        },
{
}

/// An error response is journaled as what is made of it: a rejection with its reason, a rate
/// limit with its deadline, a fatal answer as such, each with the response; and one that will
/// clear fails the attempt, to be made again.
pub proof fn law_an_error_response_is_journaled_as_it_is_classified<
    T,
    C: Fn(&GithubErrorResponse, Operation, bool, u64) -> Classification,
>(
    response: GithubErrorResponse,
    operation: Operation,
    known_resource: bool,
    now: u64,
    classify: C,
    classification: Classification,
    recorded: Result<Attempt<T>, Fault>,
)
    requires
        forall|made: Classification| #[trigger]
            call_ensures(classify, (&response, operation, known_resource, now), made) ==> made
                == classification,
        call_ensures(
            journal_github_result::<T, C>,
            (
                Err::<T, GithubError>(GithubError::Http(response)),
                operation,
                known_resource,
                now,
                classify,
            ),
            recorded,
        ),
    ensures
        match classification {
            Classification::Rejected(reason) => recorded == Ok::<Attempt<T>, Fault>(
                Attempt::Settled(Settled::Rejected { reason, response }),
            ),
            Classification::RateLimited { until } => recorded == Ok::<Attempt<T>, Fault>(
                Attempt::RateLimited { until, response },
            ),
            Classification::Fatal => recorded == Ok::<Attempt<T>, Fault>(
                Attempt::Settled(Settled::Fatal { response }),
            ),
            Classification::Retryable => recorded == Err::<Attempt<T>, Fault>(
                Fault::Retryable(RetryableServiceError::Github(response.message)),
            ),
        },
{
}

/// A step passes on what an attempt settled. Of the attempts that were rate limited, the first
/// three wait for the moment GitHub advertised, and the fourth gives up, naming the step, the
/// moment and GitHub's words.
pub proof fn law_a_step_waits_three_times_and_then_gives_up<T>(
    before: GithubStep,
    after: GithubStep,
    attempt: Attempt<T>,
    next: StepNext<T>,
)
    requires
        before.waits <= 3,
        goes_on(before, attempt, after, next),
    ensures
        match attempt {
            Attempt::Settled(settled) => next == StepNext::Settled(settled) && after.waits
                == before.waits,
            Attempt::RateLimited { until, response } => if before.waits == 3 {
                next matches StepNext::GiveUp(message) && message@ == "GitHub kept rate limiting "@
                    + before.name@ + " after "@ + decimal(3) + " waits; last reset at "@ + decimal(
                    until as nat,
                ) + ": "@ + response.message@
            } else {
                next == StepNext::<T>::SleepUntil(until) && after.waits == before.waits + 1
            },
        },
{
}

/// A sleep ends no earlier than the moment waited for, and no later; a moment that has passed is
/// not waited for.
pub proof fn law_a_sleep_ends_at_its_moment(until: u64, now: u64, seconds: u64)
    requires
        call_ensures(sleep_seconds, (until, now), seconds),
    ensures
        until >= now ==> now + seconds == until,
        until < now ==> seconds == 0,
{
}

/// A GitHub call that fails in passing is made again from a second to five minutes apart,
/// doubling, for half an hour.
pub proof fn law_a_github_call_is_kept_at_for_half_an_hour(policy: RetryPolicy)
    requires
        call_ensures(github_retry_policy, (), policy),
    ensures
        policy.initial_delay_millis == 1_000,
        policy.factor == 2,
        policy.max_delay_millis == 5 * 60 * 1_000,
        policy.max_duration_millis matches Some(millis) && millis == 30 * 60 * 1_000,
{
}

} // verus!
