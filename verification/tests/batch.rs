use std::collections::BTreeMap;

use dependaboard::batch::{
    plan_merge_rounds, record_stuck_for, BatchRun, BatchStep, COMMENT_SPACING_MILLIS,
    MAX_CONCURRENT, RECORD_PENDING_QUIETLY_SECONDS,
};
use dependaboard::model::{
    ActionOutcome, BulkActionKind, BulkRequest, PrTarget, RejectReason, UserId,
};
use dependaboard::progress::{
    BatchProgress, BatchRecord, RunningBatch, TargetOutcome, TargetProgressState,
};

const MERGE_SHA: &str = "6dcb09b5b57875f334f61aebed695e2e4193db5e";
/// The fake clock's first reading, in Unix seconds.
const CLOCK_EPOCH: u64 = 1_700_000_000;
const INSTALLATION_ID: u64 = 42;

fn pull(repository_id: u64, number: u64) -> PrTarget {
    PrTarget {
        repository_id,
        owner: "acme".to_owned(),
        repo: "api".to_owned(),
        number,
        expected_sha: "abc123".to_owned(),
        title: "Bump serde".to_owned(),
        html_url: "https://github.com/acme/api/pull/9".to_owned(),
    }
}

fn request(action: BulkActionKind, targets: Vec<PrTarget>) -> BulkRequest {
    BulkRequest {
        action,
        targets,
        user_id: UserId::new("dashboard"),
        retried_from: None,
    }
}

fn merged() -> ActionOutcome {
    ActionOutcome::Succeeded {
        detail: "merged".to_owned(),
        merge_sha: Some(MERGE_SHA.to_owned()),
    }
}

fn updated() -> ActionOutcome {
    ActionOutcome::Succeeded {
        detail: "Updating pull request branch.".to_owned(),
        merge_sha: None,
    }
}

fn commented() -> ActionOutcome {
    ActionOutcome::Succeeded {
        detail: "@dependabot rebase posted".to_owned(),
        merge_sha: None,
    }
}

fn forbidden() -> ActionOutcome {
    ActionOutcome::Rejected { reason: RejectReason::Forbidden }
}

fn stale() -> ActionOutcome {
    ActionOutcome::Rejected {
        reason: RejectReason::StaleSha {
            expected: "abc123".to_owned(),
            actual: "def456".to_owned(),
        },
    }
}

fn github_500() -> String {
    "GitHub mutation failed with HTTP 500: Internal Server Error".to_owned()
}

type Answer = Result<ActionOutcome, String>;

/// Carries out a batch's steps and records what it was asked for. Each pull request answers
/// with its scripted outcome, or succeeds. A round lands in reverse order of sending, so a
/// batch that confused a round's indices would record outcomes against the wrong targets.
#[derive(Default)]
struct Recorded {
    answers: BTreeMap<u64, Answer>,
    sent: Vec<u64>,
    rounds: Vec<Vec<u64>>,
    pauses: u32,
    sent_when_started: Option<Vec<u64>>,
    started: Vec<RunningBatch>,
    /// The first round ends the workflow, as a cancellation does.
    round_fails: bool,
    published: Vec<BatchProgress>,
}

impl Recorded {
    fn answering(answers: Vec<(u64, Answer)>) -> Self {
        Recorded { answers: answers.into_iter().collect(), ..Default::default() }
    }

    fn answer(&mut self, target: &PrTarget, succeeded: ActionOutcome) -> Answer {
        self.sent.push(target.number);
        self.answers.remove(&target.number).unwrap_or(Ok(succeeded))
    }

    /// Runs a batch until it has nothing left to send, or until a round ends it.
    fn drive(&mut self, run: &mut BatchRun) -> bool {
        self.published.push(run.progress.clone());
        self.started.push(run.running());
        self.sent_when_started = Some(self.sent.clone());
        loop {
            match run.advance() {
                BatchStep::Merge(targets) => {
                    self.published.push(run.progress.clone());
                    if self.round_fails {
                        return false;
                    }
                    self.round(run, &targets, merged);
                }
                BatchStep::UpdateBranch(targets) => {
                    self.published.push(run.progress.clone());
                    self.round(run, &targets, updated);
                }
                BatchStep::Rebase(target) => {
                    self.published.push(run.progress.clone());
                    let outcome = self.answer(&target, commented());
                    run.land(0, outcome);
                    self.published.push(run.progress.clone());
                }
                BatchStep::Pause => self.pauses += 1,
                BatchStep::Finish => return true,
            }
        }
    }

    fn round(&mut self, run: &mut BatchRun, targets: &[PrTarget], succeeded: fn() -> ActionOutcome) {
        self.rounds.push(targets.iter().map(|target| target.number).collect());
        let outcomes: Vec<Answer> =
            targets.iter().map(|target| self.answer(target, succeeded())).collect();
        for (index, outcome) in outcomes.into_iter().enumerate().rev() {
            run.land(index, outcome);
            self.published.push(run.progress.clone());
        }
    }
}

/// Runs a batch to its end: the run, and its record a minute after it started.
fn run(recorded: &mut Recorded, request: BulkRequest) -> (BatchRun, BatchRecord) {
    let mut run = BatchRun::queue(INSTALLATION_ID, "batch-1", request, CLOCK_EPOCH);
    assert!(recorded.drive(&mut run));
    let record = run.finish(CLOCK_EPOCH + 60).expect("the batch has finished");
    (run, record)
}

fn tally(progress: &BatchProgress) -> (u64, u64, u64) {
    (progress.succeeded, progress.rejected, progress.failed)
}

fn state_of(progress: &BatchProgress, number: u64) -> &TargetProgressState {
    &progress
        .targets
        .iter()
        .find(|target| target.target.number == number)
        .expect("the target is in the batch")
        .state
}

#[test]
fn a_target_that_fails_terminally_is_recorded_and_the_rest_of_the_batch_still_runs() {
    let mut recorded = Recorded::answering(vec![(2, Err(github_500()))]);

    let (run, _) = run(
        &mut recorded,
        request(BulkActionKind::Merge, vec![pull(7, 1), pull(7, 2), pull(7, 3)]),
    );

    assert_eq!(recorded.sent, vec![1, 2, 3]);
    assert!(run.progress.completed, "the batch ran to the end");
    assert_eq!(tally(&run.progress), (2, 0, 1));
    assert_eq!(
        state_of(&run.progress, 2),
        &TargetProgressState::Failed { detail: github_500() }
    );
    assert_eq!(
        state_of(&run.progress, 3),
        &TargetProgressState::Succeeded {
            detail: "merged".to_owned(),
            merge_sha: Some(MERGE_SHA.to_owned()),
        }
    );
}

#[test]
fn a_batch_whose_every_target_merges_completes_with_only_successes() {
    let mut recorded = Recorded::default();

    let (run, _) = run(
        &mut recorded,
        request(BulkActionKind::Merge, vec![pull(7, 1), pull(8, 4), pull(9, 2)]),
    );

    assert!(run.progress.completed);
    assert_eq!(tally(&run.progress), (3, 0, 0));
    assert!(run.progress.targets.iter().all(|target| target.state
        == TargetProgressState::Succeeded {
            detail: "merged".to_owned(),
            merge_sha: Some(MERGE_SHA.to_owned()),
        }));
}

#[test]
fn a_rejected_target_is_counted_apart_from_the_failed_ones() {
    let mut recorded = Recorded::answering(vec![(4, Ok(forbidden()))]);

    let (run, _) =
        run(&mut recorded, request(BulkActionKind::Merge, vec![pull(7, 1), pull(8, 4)]));

    assert!(run.progress.completed);
    assert_eq!(tally(&run.progress), (1, 1, 0));
    assert_eq!(
        state_of(&run.progress, 4),
        &TargetProgressState::Rejected { reason: RejectReason::Forbidden }
    );
}

#[test]
fn a_mixed_merge_round_settles_each_target_on_its_own() {
    let mut recorded =
        Recorded::answering(vec![(4, Ok(forbidden())), (2, Err(github_500()))]);

    let (run, _) = run(
        &mut recorded,
        request(BulkActionKind::Merge, vec![pull(7, 1), pull(8, 4), pull(9, 2)]),
    );

    assert!(run.progress.completed);
    assert_eq!(tally(&run.progress), (1, 1, 1));
    assert_eq!(
        state_of(&run.progress, 1),
        &TargetProgressState::Succeeded {
            detail: "merged".to_owned(),
            merge_sha: Some(MERGE_SHA.to_owned()),
        }
    );
    assert_eq!(
        state_of(&run.progress, 4),
        &TargetProgressState::Rejected { reason: RejectReason::Forbidden }
    );
    assert_eq!(
        state_of(&run.progress, 2),
        &TargetProgressState::Failed { detail: github_500() }
    );
}

#[test]
fn a_mixed_rebase_batch_reports_every_column_and_paces_its_comments() {
    let mut recorded =
        Recorded::answering(vec![(2, Err(github_500())), (3, Ok(forbidden()))]);

    let (run, _) = run(
        &mut recorded,
        request(
            BulkActionKind::Rebase,
            vec![pull(7, 1), pull(7, 2), pull(7, 3), pull(7, 4)],
        ),
    );

    assert_eq!(recorded.sent, vec![1, 2, 3, 4], "the failure did not stop the rest");
    assert!(run.progress.completed);
    assert_eq!(tally(&run.progress), (2, 1, 1));
    assert_eq!(
        recorded.pauses, 3,
        "one pause between each pair of comments and none after the last"
    );
    assert_eq!(COMMENT_SPACING_MILLIS, 350);
}

#[test]
fn a_mixed_update_branch_batch_settles_each_target_on_its_own_and_never_pauses() {
    let mut recorded = Recorded::answering(vec![(2, Err(github_500())), (3, Ok(stale()))]);

    let (run, _) = run(
        &mut recorded,
        request(
            BulkActionKind::UpdateBranch,
            vec![pull(7, 1), pull(7, 2), pull(7, 3), pull(7, 4)],
        ),
    );

    let mut sent = recorded.sent.clone();
    sent.sort();
    assert_eq!(sent, vec![1, 2, 3, 4]);
    assert!(run.progress.completed);
    assert_eq!(tally(&run.progress), (2, 1, 1));
    assert_eq!(
        state_of(&run.progress, 1),
        &TargetProgressState::Succeeded {
            detail: "Updating pull request branch.".to_owned(),
            merge_sha: None,
        }
    );
    assert_eq!(
        state_of(&run.progress, 2),
        &TargetProgressState::Failed { detail: github_500() }
    );
    assert_eq!(
        state_of(&run.progress, 3),
        &TargetProgressState::Rejected {
            reason: RejectReason::StaleSha {
                expected: "abc123".to_owned(),
                actual: "def456".to_owned(),
            }
        }
    );
    assert_eq!(recorded.pauses, 0, "branch updates need no spacing");
}

#[test]
fn branch_updates_go_out_in_rounds_of_the_concurrency_bound_in_batch_order() {
    let mut recorded = Recorded::default();

    let (run, _) = run(
        &mut recorded,
        request(
            BulkActionKind::UpdateBranch,
            vec![pull(7, 1), pull(7, 2), pull(7, 3), pull(7, 4), pull(8, 5)],
        ),
    );

    assert_eq!(recorded.rounds, vec![vec![1, 2, 3], vec![4, 5]]);
    assert_eq!(tally(&run.progress), (5, 0, 0));
    let running = recorded.published[1]
        .targets
        .iter()
        .filter(|target| target.state == TargetProgressState::Running)
        .count();
    assert_eq!(running, 3, "the whole round is seen in flight");
}

#[test]
fn progress_is_published_as_each_target_settles_not_once_the_round_is_over() {
    let mut recorded = Recorded::default();

    run(
        &mut recorded,
        request(BulkActionKind::Merge, vec![pull(7, 1), pull(8, 1), pull(9, 1)]),
    );

    let settled: Vec<u64> = recorded
        .published
        .iter()
        .map(|progress| progress.succeeded + progress.rejected + progress.failed)
        .collect();
    assert_eq!(
        settled,
        vec![0, 0, 1, 2, 3],
        "queued, the round running, then one more settled per publish"
    );
    assert!(recorded.published.last().is_some_and(|progress| progress.completed));
}

#[test]
fn a_finished_batch_is_recorded_in_the_projection_once_with_its_tally_and_verdicts() {
    let request = BulkRequest {
        user_id: UserId::new("alice"),
        retried_from: Some("batch-0".to_owned()),
        ..request(BulkActionKind::Merge, vec![pull(7, 1), pull(8, 4), pull(9, 2)])
    };
    let mut recorded =
        Recorded::answering(vec![(4, Ok(forbidden())), (2, Err(github_500()))]);

    let (run, record) = run(&mut recorded, request);

    assert_eq!(
        record,
        run.progress
            .completed_record(
                INSTALLATION_ID,
                UserId::new("alice"),
                Some("batch-0".to_owned()),
                CLOCK_EPOCH,
                CLOCK_EPOCH + 60,
            )
            .expect("the batch has finished")
    );
    assert_eq!(record.batch_id, "batch-1");
    assert_eq!(record.installation_id, INSTALLATION_ID);
    assert_eq!(record.retried_from.as_deref(), Some("batch-0"));
    assert_eq!((record.succeeded, record.rejected, record.failed), (1, 1, 1));
    assert_eq!(
        record
            .targets
            .iter()
            .map(|target| (target.number, target.outcome.clone()))
            .collect::<Vec<_>>(),
        vec![
            (
                1,
                TargetOutcome::Succeeded {
                    detail: "merged".to_owned(),
                    merge_sha: Some(MERGE_SHA.to_owned()),
                }
            ),
            (4, TargetOutcome::Rejected { reason: RejectReason::Forbidden }),
            (2, TargetOutcome::Failed { detail: github_500() }),
        ],
        "every target in batch order with its own verdict"
    );
    assert!(record.targets.iter().all(|target| target.head_sha.as_deref() == Some("abc123")));
}

#[test]
fn a_batch_is_listed_as_running_before_its_first_target_is_sent() {
    let request = BulkRequest {
        user_id: UserId::new("alice"),
        retried_from: Some("batch-0".to_owned()),
        ..request(BulkActionKind::Merge, vec![pull(7, 1), pull(8, 4)])
    };
    let mut recorded = Recorded::default();

    run(&mut recorded, request);

    assert_eq!(
        recorded.started,
        vec![RunningBatch {
            batch_id: "batch-1".to_owned(),
            installation_id: INSTALLATION_ID,
            action: BulkActionKind::Merge,
            requested_by: UserId::new("alice"),
            retried_from: Some("batch-0".to_owned()),
            started_at: CLOCK_EPOCH,
            target_count: 2,
        }]
    );
    assert_eq!(recorded.sent_when_started, Some(Vec::new()));
}

#[test]
fn a_batch_that_ends_without_finishing_is_unlisted_and_not_recorded() {
    let mut recorded = Recorded { round_fails: true, ..Default::default() };
    let mut run = BatchRun::queue(
        INSTALLATION_ID,
        "batch-1",
        request(BulkActionKind::Merge, vec![pull(7, 1), pull(8, 4)]),
        CLOCK_EPOCH,
    );

    assert!(!recorded.drive(&mut run), "the cancellation ends the workflow");

    assert_eq!(recorded.started.len(), 1);
    assert!(run.unlists_on_failure());
}

#[test]
fn a_completed_batch_whose_record_step_is_cancelled_keeps_its_running_listing() {
    let mut recorded = Recorded::default();

    let (run, _) =
        run(&mut recorded, request(BulkActionKind::Merge, vec![pull(7, 1), pull(8, 4)]));

    assert_eq!(recorded.sent, vec![1, 4], "every target had settled");
    assert!(!run.unlists_on_failure(), "the running row is kept as evidence");
}

#[test]
fn the_completion_line_lists_every_column() {
    let targets = vec![pull(7, 1), pull(7, 2), pull(7, 3)];
    let mut progress = BatchProgress::queued("batch-1", BulkActionKind::Merge, &targets);
    progress.record(targets[0].key(), merged());
    progress.record(targets[1].key(), forbidden());
    progress.record_failure(targets[2].key(), "boom".to_owned());

    assert_eq!(progress.outcome(), "1 succeeded, 1 rejected, 1 failed of 3 targets");
}

/// A finished one-target batch, completed a minute after the fake clock's epoch.
fn finished_record() -> BatchRecord {
    let targets = vec![pull(7, 1)];
    let mut progress = BatchProgress::queued("batch-1", BulkActionKind::Merge, &targets);
    progress.record(targets[0].key(), merged());
    progress
        .completed_record(
            INSTALLATION_ID,
            UserId::new("alice"),
            None,
            CLOCK_EPOCH,
            CLOCK_EPOCH + 60,
        )
        .expect("the batch has finished")
}

#[test]
fn a_record_still_pending_past_the_grace_period_is_warned_about_with_its_age() {
    let record = finished_record();
    let now = record.completed_at + RECORD_PENDING_QUIETLY_SECONDS + 1;

    assert_eq!(record.batch_id, "batch-1");
    assert_eq!(record_stuck_for(&record, now), Some(31));
}

#[test]
fn a_record_that_has_only_just_failed_to_land_is_retried_quietly() {
    let record = finished_record();

    assert_eq!(record_stuck_for(&record, record.completed_at + 5), None);
    assert_eq!(
        record_stuck_for(&record, record.completed_at + RECORD_PENDING_QUIETLY_SECONDS),
        None
    );
    assert_eq!(record_stuck_for(&record, 0), None, "a clock behind the record is no age");
}

#[test]
fn pull_requests_in_different_repositories_merge_in_the_same_round() {
    let rounds = plan_merge_rounds(&vec![pull(7, 1), pull(8, 1), pull(9, 1)], MAX_CONCURRENT);

    assert_eq!(rounds, vec![vec![pull(7, 1), pull(8, 1), pull(9, 1)]]);
}

#[test]
fn pull_requests_in_one_repository_merge_one_round_after_another_in_batch_order() {
    let rounds = plan_merge_rounds(
        &vec![pull(7, 5), pull(7, 2), pull(8, 1), pull(7, 9)],
        MAX_CONCURRENT,
    );

    assert_eq!(
        rounds,
        vec![vec![pull(7, 5), pull(8, 1)], vec![pull(7, 2)], vec![pull(7, 9)]],
        "merging one pull request moves the base under the next"
    );
}

#[test]
fn no_round_sends_more_pull_requests_than_the_concurrency_bound() {
    let one_per_repository: Vec<PrTarget> =
        (1..=5).map(|repository_id| pull(repository_id, 1)).collect();

    let rounds = plan_merge_rounds(&one_per_repository, 2);

    assert_eq!(
        rounds,
        vec![
            vec![pull(1, 1), pull(2, 1)],
            vec![pull(3, 1), pull(4, 1)],
            vec![pull(5, 1)],
        ]
    );
}

#[test]
fn rounds_go_round_the_repositories_so_none_waits_for_the_others_to_drain() {
    let two_per_repository: Vec<PrTarget> = (1..=4)
        .flat_map(|repository_id| [pull(repository_id, 1), pull(repository_id, 2)])
        .collect();

    let rounds = plan_merge_rounds(&two_per_repository, MAX_CONCURRENT);

    assert_eq!(
        rounds,
        vec![
            vec![pull(1, 1), pull(2, 1), pull(3, 1)],
            vec![pull(4, 1), pull(1, 2), pull(2, 2)],
            vec![pull(3, 2), pull(4, 2)],
        ]
    );
}

#[test]
fn repositories_take_turns_in_the_order_the_batch_first_names_them() {
    let rounds =
        plan_merge_rounds(&vec![pull(9, 1), pull(3, 1), pull(9, 2), pull(3, 2)], 1);

    assert_eq!(
        rounds,
        vec![
            vec![pull(9, 1)],
            vec![pull(3, 1)],
            vec![pull(9, 2)],
            vec![pull(3, 2)],
        ]
    );
}

#[test]
fn an_empty_batch_plans_no_rounds() {
    assert!(plan_merge_rounds(&Vec::new(), MAX_CONCURRENT).is_empty());
}

#[test]
fn a_round_holds_each_repository_once_and_every_target_lands_in_one_round() {
    let targets: Vec<PrTarget> = [3, 1, 3, 2, 1, 3, 4, 5, 4]
        .iter()
        .enumerate()
        .map(|(index, repository_id)| pull(*repository_id, index as u64))
        .collect();

    let rounds = plan_merge_rounds(&targets, MAX_CONCURRENT);

    let mut numbers = Vec::new();
    for round in &rounds {
        assert!(!round.is_empty() && round.len() <= MAX_CONCURRENT);
        let mut repositories: Vec<u64> =
            round.iter().map(|target| target.repository_id).collect();
        repositories.sort();
        repositories.dedup();
        assert_eq!(repositories.len(), round.len());
        numbers.extend(round.iter().map(|target| target.number));
    }
    let third: Vec<u64> = numbers.iter().copied().filter(|n| [0, 2, 5].contains(n)).collect();
    assert_eq!(third, vec![0, 2, 5], "a repository keeps its batch order");
    numbers.sort();
    assert_eq!(numbers, (0..9).collect::<Vec<u64>>());
}

#[test]
fn a_batch_that_names_a_target_twice_never_completes() {
    let mut recorded = Recorded::default();
    let mut run = BatchRun::queue(
        INSTALLATION_ID,
        "batch-1",
        request(BulkActionKind::Merge, vec![pull(7, 1), pull(7, 1)]),
        CLOCK_EPOCH,
    );

    assert!(recorded.drive(&mut run));

    assert_eq!(
        run.finish(CLOCK_EPOCH + 60),
        Err("every target was attempted, yet the batch is not complete".to_owned())
    );
}

#[test]
fn the_tally_of_a_finished_batch_is_its_size() {
    let mut recorded =
        Recorded::answering(vec![(1, Ok(stale())), (3, Err(github_500())), (4, Ok(forbidden()))]);

    let (run, record) = run(
        &mut recorded,
        request(
            BulkActionKind::UpdateBranch,
            vec![pull(7, 1), pull(7, 2), pull(8, 3), pull(9, 4), pull(9, 5)],
        ),
    );

    assert_eq!(tally(&run.progress), (2, 2, 1));
    assert_eq!(record.succeeded + record.rejected + record.failed, 5);
}

#[test]
fn the_order_of_landing_does_not_matter() {
    let batch = || request(BulkActionKind::UpdateBranch, vec![pull(7, 1), pull(7, 2), pull(7, 3)]);
    let outcome = |index: usize| match index {
        0 => Ok(updated()),
        1 => Ok(forbidden()),
        _ => Err(github_500()),
    };
    let landed = |order: [usize; 3]| {
        let mut run = BatchRun::queue(INSTALLATION_ID, "batch-1", batch(), CLOCK_EPOCH);
        run.advance();
        for index in order {
            run.land(index, outcome(index));
        }
        run.progress
    };

    let in_order = landed([0, 1, 2]);
    assert!(in_order.completed);
    for order in [[0, 2, 1], [1, 0, 2], [1, 2, 0], [2, 0, 1], [2, 1, 0]] {
        assert_eq!(landed(order), in_order);
    }
}
