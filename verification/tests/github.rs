use dependaboard::fault::{
    Fault, RetryableServiceError, StoreErrorClass, StoreStepKind,
};
use dependaboard::github::{
    action_result, github_retry_policy, journal_github_result, merge_result, read_result,
    sleep_seconds, Attempt, Classification, GithubError, GithubErrorResponse, GithubStep, Merged,
    Settled, StepNext,
};
use dependaboard::model::{ActionOutcome, Operation, RejectReason};

fn response(status: u16, message: &str) -> GithubErrorResponse {
    GithubErrorResponse {
        status,
        message: message.to_owned(),
        retry_after_seconds: None,
        rate_limit_remaining: None,
        rate_limit_reset: None,
    }
}

/// A plain reading of GitHub's statuses.
fn classify(
    response: &GithubErrorResponse,
    _operation: Operation,
    known_resource: bool,
    now: u64,
) -> Classification {
    match response.status {
        403 | 429 => match response.retry_after_seconds {
            Some(seconds) => Classification::RateLimited { until: now + seconds },
            None => Classification::Rejected(RejectReason::Forbidden),
        },
        404 if known_resource => Classification::Rejected(RejectReason::NotFound),
        405 => Classification::Rejected(RejectReason::NotMergeable),
        500..=599 => Classification::Retryable,
        _ => Classification::Fatal,
    }
}

fn journal<T>(
    result: Result<T, GithubError>,
    operation: Operation,
    known_resource: bool,
) -> Result<Attempt<T>, Fault> {
    journal_github_result(result, operation, known_resource, 1_000, classify)
}

fn rate_limit_is_journaled_with_its_deadline() {
    let limited = GithubErrorResponse {
        retry_after_seconds: Some(45),
        ..response(403, "You have exceeded a secondary rate limit.")
    };

    let attempt =
        journal::<()>(Err(GithubError::Http(limited.clone())), Operation::Comment, false)
            .expect("a rate limit is a journaled value, not a run failure");

    assert_eq!(attempt, Attempt::RateLimited { until: 1_045, response: limited });
}

#[test]
fn github_a_rate_limited_response_is_journaled_with_its_deadline() {
    rate_limit_is_journaled_with_its_deadline();
}

#[test]
fn main_a_rate_limited_response_is_journaled_with_its_deadline() {
    rate_limit_is_journaled_with_its_deadline();
}

fn transient_failure_fails_the_attempt() {
    let error = journal::<()>(
        Err(GithubError::Http(response(503, "unavailable"))),
        Operation::Read,
        false,
    )
    .unwrap_err();
    assert!(matches!(error, Fault::Retryable(_)), "{error:?}");

    let error = journal::<()>(
        Err(GithubError::Transport("connection reset".to_owned())),
        Operation::Read,
        false,
    )
    .unwrap_err();
    assert_eq!(
        error,
        Fault::Retryable(RetryableServiceError::Github("connection reset".to_owned()))
    );
    assert_eq!(error.message(), "transient GitHub failure: connection reset");
}

#[test]
fn github_a_transient_failure_fails_the_attempt_so_the_bounded_policy_retries_it() {
    transient_failure_fails_the_attempt();
}

#[test]
fn main_a_transient_failure_fails_the_attempt_so_the_bounded_policy_retries_it() {
    transient_failure_fails_the_attempt();
}

fn rejected_response_is_journaled_with_its_reason() {
    let not_found = response(404, "Not Found");

    let attempt =
        journal::<()>(Err(GithubError::HttpKnown(not_found.clone())), Operation::Read, false)
            .unwrap();

    assert_eq!(
        attempt,
        Attempt::Settled(Settled::Rejected {
            reason: RejectReason::NotFound,
            response: not_found,
        })
    );
}

#[test]
fn a_response_known_of_itself_is_journaled_as_one_about_a_known_resource() {
    for status in [401, 403, 404, 502] {
        let known = GithubError::HttpKnown(response(status, "said"));
        let ordinary = GithubError::Http(response(status, "said"));

        assert_eq!(
            journal::<()>(Err(known), Operation::Read, false),
            journal::<()>(Err(ordinary), Operation::Read, true)
        );
    }
}

#[test]
fn github_a_rejected_response_is_journaled_with_its_reason() {
    rejected_response_is_journaled_with_its_reason();
}

#[test]
fn main_a_rejected_response_is_journaled_with_its_reason() {
    rejected_response_is_journaled_with_its_reason();
}

fn fatal_response_is_journaled_verbatim() {
    let bad = response(401, "Bad credentials");

    let attempt =
        journal::<()>(Err(GithubError::Http(bad.clone())), Operation::Read, false).unwrap();

    assert_eq!(attempt, Attempt::Settled(Settled::Fatal { response: bad }));
}

#[test]
fn github_a_fatal_response_is_journaled_verbatim() {
    fatal_response_is_journaled_verbatim();
}

#[test]
fn main_a_fatal_response_is_journaled_verbatim() {
    fatal_response_is_journaled_verbatim();
}

fn protocol_error_fails_the_attempt_terminally() {
    let error = journal::<()>(
        Err(GithubError::Protocol("invalid GitHub response".to_owned())),
        Operation::Read,
        false,
    )
    .unwrap_err();
    assert_eq!(error, Fault::Terminal("invalid GitHub response".to_owned()));
}

#[test]
fn github_a_protocol_error_fails_the_attempt_terminally() {
    protocol_error_fails_the_attempt_terminally();
}

#[test]
fn main_a_protocol_error_fails_the_attempt_terminally() {
    protocol_error_fails_the_attempt_terminally();
}

#[test]
fn what_is_no_error_response_is_journaled_without_being_classified() {
    assert_eq!(
        journal(Ok(7), Operation::Read, true),
        Ok(Attempt::Settled(Settled::Done(7)))
    );
    assert_eq!(
        journal::<()>(
            Err(GithubError::StaleSha {
                expected: "abc123".to_owned(),
                actual: "def456".to_owned(),
            }),
            Operation::Merge,
            true,
        ),
        Ok(Attempt::Settled(Settled::StaleSha {
            expected: "abc123".to_owned(),
            actual: "def456".to_owned(),
        }))
    );
    assert_eq!(
        journal::<()>(
            Err(GithubError::Config("no user token".to_owned())),
            Operation::Comment,
            true,
        ),
        Err(Fault::Terminal("no user token".to_owned()))
    );
    assert_eq!(
        journal::<()>(Err(GithubError::Http(response(404, "Not Found"))), Operation::Read, false),
        Ok(Attempt::Settled(Settled::Fatal { response: response(404, "Not Found") })),
        "a plain answer is about a known resource only where the caller knew it"
    );
}

fn rate_limited(until: u64) -> Attempt<String> {
    Attempt::RateLimited {
        until,
        response: GithubErrorResponse {
            rate_limit_remaining: Some(0),
            rate_limit_reset: Some(until),
            ..response(403, "API rate limit exceeded")
        },
    }
}

/// Runs a step over scripted attempts: what it came to, how long it slept, and how many
/// attempts it left.
fn run_step(attempts: Vec<Attempt<String>>) -> (Result<Settled<String>, String>, Vec<u64>, usize) {
    let mut step = GithubStep::new("merge-pull-request");
    let mut slept_until = Vec::new();
    let mut attempts = attempts.into_iter();
    loop {
        let attempt = attempts.next().expect("the step ran more attempts than were scripted");
        match step.attempted(attempt) {
            StepNext::Settled(settled) => return (Ok(settled), slept_until, attempts.len()),
            StepNext::SleepUntil(until) => slept_until.push(until),
            StepNext::GiveUp(message) => return (Err(message), slept_until, attempts.len()),
        }
    }
}

fn rate_limited_attempt_sleeps_then_retries() {
    let (settled, slept_until, left) = run_step(vec![
        rate_limited(4_600),
        Attempt::Settled(Settled::Done("merged".to_owned())),
    ]);

    assert_eq!(settled, Ok(Settled::Done("merged".to_owned())));
    assert_eq!(slept_until, vec![4_600]);
    assert_eq!(left, 0, "the step was re-run after the wait");
}

#[test]
fn github_a_rate_limited_attempt_sleeps_durably_until_the_deadline_then_retries() {
    rate_limited_attempt_sleeps_then_retries();
}

#[test]
fn main_a_rate_limited_attempt_sleeps_durably_until_the_deadline_then_retries() {
    rate_limited_attempt_sleeps_then_retries();
}

fn step_gives_up_after_three_waits() {
    let (settled, slept_until, _) = run_step(vec![
        rate_limited(4_600),
        rate_limited(8_200),
        rate_limited(11_800),
        rate_limited(15_400),
    ]);

    assert_eq!(slept_until, vec![4_600, 8_200, 11_800]);
    assert_eq!(
        settled,
        Err("GitHub kept rate limiting merge-pull-request after 3 waits; last reset at 15400: API rate limit exceeded".to_owned())
    );
}

#[test]
fn github_a_step_that_stays_rate_limited_gives_up_terminally_after_three_waits() {
    step_gives_up_after_three_waits();
}

#[test]
fn main_a_step_that_stays_rate_limited_gives_up_terminally_after_three_waits() {
    step_gives_up_after_three_waits();
}

fn settled_attempt_never_waits() {
    let (settled, slept_until, _) = run_step(vec![Attempt::Settled(Settled::Rejected {
        reason: RejectReason::NotMergeable,
        response: response(405, "Pull Request is not mergeable"),
    })]);

    assert!(matches!(
        settled,
        Ok(Settled::Rejected { reason: RejectReason::NotMergeable, .. })
    ));
    assert!(slept_until.is_empty());
}

#[test]
fn github_a_settled_attempt_never_waits() {
    settled_attempt_never_waits();
}

#[test]
fn main_a_settled_attempt_never_waits() {
    settled_attempt_never_waits();
}

#[test]
fn a_deadline_already_past_is_no_wait() {
    assert_eq!(sleep_seconds(1_045, 1_000), 45);
    assert_eq!(sleep_seconds(1_000, 1_045), 0);
}

fn every_policy_gives_up() {
    assert_eq!(github_retry_policy().max_duration_millis, Some(1_800_000));
    assert_eq!(StoreStepKind::Ordinary.retry_policy().max_duration_millis, Some(300_000));
}

#[test]
fn github_every_run_retry_policy_gives_up_after_a_bounded_duration() {
    every_policy_gives_up();
}

#[test]
fn main_every_run_retry_policy_gives_up_after_a_bounded_duration() {
    every_policy_gives_up();
}

fn forbidden() -> GithubErrorResponse {
    response(403, "Resource not accessible by integration")
}

fn settled_mutations_map_to_outcomes() {
    assert_eq!(
        action_result(Settled::Rejected {
            reason: RejectReason::Forbidden,
            response: forbidden(),
        }),
        Ok(ActionOutcome::Rejected { reason: RejectReason::Forbidden })
    );
    assert_eq!(
        action_result(Settled::Done("merged".to_owned())),
        Ok(ActionOutcome::Succeeded { detail: "merged".to_owned(), merge_sha: None })
    );

    let error = action_result(Settled::Fatal { response: response(401, "Bad credentials") })
        .unwrap_err();
    let Fault::Terminal(message) = error else {
        panic!("a fatal answer fails for good");
    };
    assert_eq!(
        restate_sdk::prelude::TerminalError::new(message).to_string(),
        "Terminal error [500]: GitHub mutation failed with HTTP 401: Bad credentials"
    );
}

#[test]
fn github_settled_mutations_map_to_outcomes_and_only_fatal_ones_fail() {
    settled_mutations_map_to_outcomes();
}

#[test]
fn main_settled_mutations_map_to_outcomes_and_only_fatal_ones_fail() {
    settled_mutations_map_to_outcomes();
}

#[test]
fn a_merge_that_landed_carries_the_commit_it_made() {
    assert_eq!(
        merge_result(Settled::Done(Merged {
            detail: "merged".to_owned(),
            sha: Some("6dcb09b".to_owned()),
        })),
        Ok(ActionOutcome::Succeeded {
            detail: "merged".to_owned(),
            merge_sha: Some("6dcb09b".to_owned()),
        })
    );
    assert_eq!(
        merge_result(Settled::StaleSha {
            expected: "abc123".to_owned(),
            actual: "def456".to_owned(),
        }),
        Ok(ActionOutcome::Rejected {
            reason: RejectReason::StaleSha {
                expected: "abc123".to_owned(),
                actual: "def456".to_owned(),
            },
        })
    );
}

fn rejected_read_fails_terminally() {
    let error = read_result(Settled::<()>::Rejected {
        reason: RejectReason::Forbidden,
        response: forbidden(),
    })
    .unwrap_err();
    assert!(matches!(error, Fault::Terminal(_)), "{error:?}");
}

#[test]
fn github_a_rejected_read_has_no_outcome_to_carry_it_and_fails_terminally() {
    rejected_read_fails_terminally();
}

#[test]
fn main_a_rejected_read_has_no_outcome_to_carry_it_and_fails_terminally() {
    rejected_read_fails_terminally();
}

#[test]
fn each_kind_reads_a_terminal_class_store_error_the_way_its_budget_needs() {
    for (kind, terminal) in [
        (StoreStepKind::Ordinary, true),
        (StoreStepKind::Brief, true),
        (StoreStepKind::LastChance, false),
    ] {
        let read = kind.read_failure(StoreErrorClass::Terminal, "no such table".to_owned());
        assert_eq!(matches!(read, Fault::Terminal(_)), terminal, "{kind:?}: {read:?}");
        assert_eq!(kind.retry_policy().max_duration_millis.is_some(), terminal, "{kind:?}");
        assert_eq!(
            kind.read_failure(StoreErrorClass::Retryable, "locked".to_owned()).message(),
            "transient projection-store failure: locked"
        );
    }
    assert_eq!(
        StoreStepKind::LastChance
            .read_failure(StoreErrorClass::Terminal, "no such table".to_owned())
            .message(),
        "batch record met a terminal-class store error; retrying regardless: no such table"
    );
}
