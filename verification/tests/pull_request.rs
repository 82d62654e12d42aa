use std::collections::VecDeque;

use dependaboard::fault::Fault;
use dependaboard::github::{GithubErrorResponse, Merged, Settled};
use dependaboard::handler::HandlerOutcome;
use dependaboard::model::{
    ActionOutcome, CommandRequest, DependabotCommand, MergeMethod, MergeRequest, Operation, PrKey,
    PrRecord, PrTarget, RejectReason, RepoRecord, SyncRequest, UpdateBranchRequest, UserId,
};
use dependaboard::projection::Tables;
use dependaboard::pull_request::{
    begin_closed, begin_command, begin_merge, begin_sync, begin_update_branch, closed_retires,
    guard_command, guard_target, repository_merge_method, should_debounce_sync,
    target_matches_snapshot, ClosedOutcome, ClosedRequest, ClosedStart, MergeWrite, MutationStart,
    PrState, SyncOutcome, SyncStart, SyncWrite,
};

/// The fake clock's first reading, in Unix seconds.
const CLOCK_EPOCH: u64 = 1_700_000_000;
/// The event debounce the object under test runs with, in seconds.
const DEBOUNCE: u64 = 20;
/// The commit every merge in these tests makes.
const MERGE_SHA: &str = "9f8e7d6c5b4a39281706f5e4d3c2b1a0f9e8d7c6";

fn target() -> PrTarget {
    PrTarget {
        repository_id: 7,
        owner: "acme".to_owned(),
        repo: "api".to_owned(),
        number: 9,
        expected_sha: "abc123".to_owned(),
        title: "Bump serde".to_owned(),
        html_url: "https://github.com/acme/api/pull/9".to_owned(),
    }
}

fn repository() -> RepoRecord {
    RepoRecord {
        repository_id: 7,
        installation_id: 1,
        owner: "acme".to_owned(),
        repo: "api".to_owned(),
        merge_method: None,
        synced_at: 0,
    }
}

fn snapshot() -> PrRecord {
    PrRecord {
        repository_id: 7,
        installation_id: 1,
        owner: "acme".to_owned(),
        repo: "api".to_owned(),
        number: 9,
        title: "Bump serde".to_owned(),
        html_url: "https://github.com/acme/api/pull/9".to_owned(),
        head_sha: "abc123".to_owned(),
        synced_at: 0,
        payload: String::new(),
    }
}

/// A sync of [`target`]'s pull request, as a webhook would ask for it.
fn sync_request() -> SyncRequest {
    SyncRequest {
        repository_id: 7,
        owner: "acme".to_owned(),
        repo: "api".to_owned(),
        number: 9,
        bypass_debounce: false,
        completion_id: None,
    }
}

fn merge_request() -> MergeRequest {
    MergeRequest { batch_id: "batch-1".to_owned(), target: target() }
}

fn update_branch_request() -> UpdateBranchRequest {
    UpdateBranchRequest { batch_id: "batch-1".to_owned(), target: target() }
}

fn command_request() -> CommandRequest {
    CommandRequest {
        batch_id: "batch-1".to_owned(),
        target: target(),
        user_id: UserId::new("dashboard"),
        command: DependabotCommand::Rebase,
    }
}

fn synced() -> PrState {
    PrState {
        snapshot: Some(snapshot()),
        last_synced_at: Some(snapshot().synced_at),
        ..PrState::default()
    }
}

fn response(status: u16, message: &str) -> GithubErrorResponse {
    GithubErrorResponse {
        status,
        message: message.to_owned(),
        retry_after_seconds: None,
        rate_limit_remaining: None,
        rate_limit_reset: None,
    }
}

/// One answer from GitHub, as the step that asked for it settles.
#[derive(Debug)]
enum Answer {
    Snapshot(Settled<Option<PrRecord>>),
    Merge(Settled<Merged>),
    Action(Settled<String>),
}

/// One object with its GitHub, its clock and its projection, and what its handlers asked of
/// them.
struct Object {
    store: Tables,
    state: Option<PrState>,
    can_post_commands: bool,
    answers: VecDeque<Answer>,
    asked: Vec<(Operation, bool)>,
    scheduled: Vec<(SyncRequest, Option<u64>)>,
    store_steps: Vec<&'static str>,
    clock_readings: u64,
    held_when_asked: Option<PrState>,
    held_when_projected: Option<PrState>,
    store_fails: bool,
}

fn pull_request(state: Option<PrState>, answers: Vec<Answer>) -> Object {
    let mut store = Tables::new();
    store.upsert_repo(repository());
    if let Some(snapshot) = state.as_ref().and_then(|state| state.snapshot.as_ref()) {
        store.upsert_pr(snapshot.clone());
    }
    Object {
        store,
        state,
        can_post_commands: false,
        answers: answers.into_iter().collect(),
        asked: Vec::new(),
        scheduled: Vec::new(),
        store_steps: Vec::new(),
        clock_readings: 0,
        held_when_asked: None,
        held_when_projected: None,
        store_fails: false,
    }
}

impl Object {
    fn now(&mut self) -> u64 {
        let reading = CLOCK_EPOCH + self.clock_readings;
        self.clock_readings += 1;
        reading
    }

    fn held(&self) -> PrState {
        self.state.clone().unwrap_or_default()
    }

    fn row(&self) -> Option<PrRecord> {
        self.store.get_pr(target().key())
    }

    fn answer(&mut self, operation: Operation, known_resource: bool) -> Answer {
        if self.held_when_asked.is_none() {
            self.held_when_asked = Some(self.held());
        }
        self.asked.push((operation, known_resource));
        self.answers.pop_front().expect("GitHub was asked unscripted")
    }

    fn action(&mut self, operation: Operation, known_resource: bool) -> Settled<String> {
        match self.answer(operation, known_resource) {
            Answer::Action(settled) => settled,
            other => panic!("scripted {other:?}"),
        }
    }

    fn store_step(&mut self, step: &'static str) -> Result<(), Fault> {
        self.store_steps.push(step);
        if self.store_fails {
            self.store_fails = false;
            return Err(Fault::Terminal("database is locked".to_owned()));
        }
        Ok(())
    }

    fn drop_row(&mut self, step: &'static str, key: PrKey) -> Result<(), Fault> {
        self.store_step(step)?;
        self.store.delete_pr(key);
        Ok(())
    }

    fn sync(&mut self, request: SyncRequest) -> Result<SyncOutcome, Fault> {
        let now = self.now();
        match begin_sync(request, self.state.clone(), now, DEBOUNCE) {
            start @ SyncStart::Coalesced => Ok(start.ended().expect("a coalesced sync ends")),
            start @ SyncStart::Trailing { .. } => {
                let outcome = start.ended().expect("a sync held back ends");
                if let SyncStart::Trailing { state, request, after_seconds } = start {
                    self.state = Some(state);
                    self.scheduled.push((request, Some(after_seconds)));
                }
                Ok(outcome)
            }
            SyncStart::Read(read) => {
                self.state = Some(read.state.clone());
                let fetched = match self.answer(Operation::Read, read.known_resource()) {
                    Answer::Snapshot(settled) => settled,
                    other => panic!("scripted {other:?}"),
                };
                match read.fetched(fetched)? {
                    SyncWrite::Delete(delete) => {
                        let dropped = self.drop_row("delete-ineligible-pr-projection", delete.key);
                        let (held, outcome) = delete.dropped(dropped);
                        self.state = held;
                        outcome
                    }
                    SyncWrite::Upsert(upsert) => {
                        self.held_when_projected = Some(self.held());
                        let written = self.store_step("upsert-pr-projection");
                        if written.is_ok() {
                            self.store.upsert_pr(upsert.snapshot.clone());
                        }
                        let (state, outcome) = upsert.projected(written);
                        self.state = Some(state);
                        outcome
                    }
                }
            }
        }
    }

    fn merge(&mut self, request: MergeRequest) -> Result<ActionOutcome, Fault> {
        match begin_merge(request, self.state.clone()) {
            MutationStart::Refused(outcome) => Ok(outcome),
            MutationStart::Send(mutation) => {
                self.store_step("read-repository-merge-method")?;
                let result = match self.answer(Operation::Merge, mutation.known_resource()) {
                    Answer::Merge(settled) => settled,
                    other => panic!("scripted {other:?}"),
                };
                let log = match mutation.merged(result)? {
                    MergeWrite::Delete(key, log) => {
                        self.store_step("delete-merged-pr-projection")?;
                        self.store.delete_pr(key);
                        log
                    }
                    MergeWrite::Log(log) => log,
                };
                let at = self.now();
                let (state, outcome) = log.logged_at(at);
                self.state = Some(state);
                Ok(outcome)
            }
        }
    }

    fn command(&mut self, request: CommandRequest) -> Result<ActionOutcome, Fault> {
        match begin_command(request, self.state.clone(), self.can_post_commands) {
            MutationStart::Refused(outcome) => Ok(outcome),
            MutationStart::Send(mutation) => {
                let result = self.action(Operation::Comment, mutation.known_resource());
                let log = mutation.posted(result)?;
                let at = self.now();
                let (state, outcome) = log.logged_at(at);
                self.state = Some(state);
                Ok(outcome)
            }
        }
    }

    fn update_branch(&mut self, request: UpdateBranchRequest) -> Result<ActionOutcome, Fault> {
        match begin_update_branch(request, self.state.clone()) {
            MutationStart::Refused(outcome) => Ok(outcome),
            MutationStart::Send(mutation) => {
                let result = self.action(Operation::UpdateBranch, mutation.known_resource());
                let (log, follow_up) = mutation.updated(result)?;
                let at = self.now();
                let (state, outcome) = log.logged_at(at);
                self.state = Some(state);
                self.scheduled.extend(follow_up.map(|request| (request, None)));
                Ok(outcome)
            }
        }
    }

    fn closed(&mut self, request: ClosedRequest) -> Result<ClosedOutcome, Fault> {
        match begin_closed("7#9", self.state.clone(), request)? {
            ClosedStart::End { held, outcome } => {
                self.state = held;
                Ok(outcome)
            }
            ClosedStart::Delete(delete) => {
                let dropped = self.drop_row("delete-closed-pr-projection", delete.key);
                let (held, outcome) = delete.dropped(dropped);
                self.state = held;
                outcome
            }
        }
    }
}

fn last_line(state: &PrState) -> (&str, &str) {
    let log = state.history.last().expect("a line was logged");
    (log.action.as_str(), log.detail.as_str())
}

#[test]
fn a_second_sync_inside_the_debounce_window_is_coalesced_behind_the_one_already_scheduled() {
    let just_synced = PrState { last_synced_at: Some(CLOCK_EPOCH), ..synced() };
    let mut object = pull_request(
        Some(just_synced),
        vec![Answer::Snapshot(Settled::Done(Some(snapshot())))],
    );

    let first = object.sync(sync_request()).unwrap();
    let second = object.sync(sync_request()).unwrap();

    assert_eq!((first, second), (SyncOutcome::Debounced, SyncOutcome::Debounced));
    assert_eq!(
        object.scheduled,
        vec![(sync_request(), Some(DEBOUNCE))],
        "one trailing sync for the storm, not one per event"
    );
    assert!(object.held().sync_pending);
    assert!(object.asked.is_empty(), "neither event reached GitHub");

    object.clock_readings += DEBOUNCE;
    let trailing = object.sync(sync_request()).unwrap();

    assert!(matches!(trailing, SyncOutcome::Synced { .. }));
    assert_eq!(object.asked, vec![(Operation::Read, true)]);
    assert!(!object.held().sync_pending);
    assert_eq!(object.scheduled.len(), 1, "it schedules no successor of its own");
}

#[test]
fn the_trailing_sync_clears_its_pending_flag_before_it_reads_github() {
    let awaiting = PrState { sync_pending: true, ..synced() };
    let mut object = pull_request(
        Some(awaiting),
        vec![Answer::Snapshot(Settled::Done(Some(snapshot())))],
    );

    object.sync(sync_request()).unwrap();

    assert!(!object.held_when_asked.as_ref().expect("GitHub was read").sync_pending);
    assert!(!object.held().sync_pending);
    assert!(object.scheduled.is_empty());
}

#[test]
fn a_sync_writes_the_projection_before_it_records_the_snapshot_as_its_own() {
    let pushed = PrRecord {
        head_sha: "def456".to_owned(),
        synced_at: CLOCK_EPOCH,
        ..snapshot()
    };
    let mut object = pull_request(
        Some(synced()),
        vec![Answer::Snapshot(Settled::Done(Some(pushed.clone())))],
    );
    let refresh = SyncRequest { completion_id: Some("refresh-1".to_owned()), ..sync_request() };

    let outcome = object.sync(refresh).unwrap();

    assert_eq!(outcome, SyncOutcome::Synced { head_sha: "def456".to_owned() });
    assert_eq!(outcome.outcome(), "synced at def456");
    assert_eq!(object.asked, vec![(Operation::Read, true)]);
    assert_eq!(
        object.held_when_projected.as_ref().expect("the row was written").snapshot,
        Some(snapshot()),
        "the row goes first"
    );
    assert_eq!(object.row(), Some(pushed.clone()));
    let state = object.state.expect("the object keeps its state");
    assert_eq!(state.snapshot, Some(pushed));
    assert_eq!(state.last_synced_at, Some(CLOCK_EPOCH));
    assert_eq!(last_line(&state), ("sync", "canonical snapshot at def456"));
    assert_eq!(state.history.last().map(|log| log.at), Some(CLOCK_EPOCH));
    assert_eq!(state.completed_sync_ids, vec!["refresh-1".to_owned()]);
}

#[test]
fn a_sync_that_finds_no_open_dependabot_pull_request_drops_the_row_and_forgets_the_object() {
    let gone = Answer::Snapshot(Settled::Rejected {
        reason: RejectReason::NotFound,
        response: response(404, "Not Found"),
    });
    let not_dependabots = Answer::Snapshot(Settled::Done(None));

    for (says, answer) in [
        ("a 404 on a pull request read before", gone),
        ("an open pull request that is not Dependabot's", not_dependabots),
    ] {
        let mut object = pull_request(Some(synced()), vec![answer]);

        let outcome = object.sync(sync_request()).unwrap();

        assert_eq!(outcome, SyncOutcome::Deleted, "{says}");
        assert_eq!(
            outcome.outcome(),
            "deleted; no longer an open Dependabot pull request"
        );
        assert_eq!(object.row(), None, "{says}");
        assert_eq!(object.state, None, "{says}");
    }
}

#[test]
fn a_store_that_refuses_what_a_sync_writes_leaves_the_state_for_the_retry() {
    for answer in [Settled::Done(None), Settled::Done(Some(snapshot()))] {
        let mut object = pull_request(Some(synced()), vec![Answer::Snapshot(answer)]);
        object.store_fails = true;

        let outcome = object.sync(sync_request());

        assert_eq!(outcome, Err(Fault::Terminal("database is locked".to_owned())));
        assert_eq!(object.row(), Some(snapshot()));
        assert_eq!(object.state, Some(synced()), "row and state go together or not at all");
        assert!(object.scheduled.is_empty());
    }
}

#[test]
fn a_sync_that_github_refuses_or_garbles_fails() {
    for (answer, message) in [
        (
            Settled::Rejected {
                reason: RejectReason::Forbidden,
                response: response(403, "Resource not accessible by integration"),
            },
            "the configured identity is not allowed to perform this action",
        ),
        (
            Settled::Fatal { response: response(401, "Bad credentials") },
            "GitHub read failed with HTTP 401: Bad credentials",
        ),
        (
            Settled::StaleSha { expected: "a".to_owned(), actual: "b".to_owned() },
            "unexpected stale SHA while reading GitHub",
        ),
    ] {
        let mut object = pull_request(Some(synced()), vec![Answer::Snapshot(answer)]);
        assert_eq!(
            object.sync(sync_request()),
            Err(Fault::Terminal(message.to_owned()))
        );
        assert_eq!(object.row(), Some(snapshot()));
    }
}

#[test]
fn a_merge_github_rejected_keeps_the_snapshot() {
    let mut object = pull_request(
        Some(synced()),
        vec![Answer::Merge(Settled::Rejected {
            reason: RejectReason::NotMergeable,
            response: response(405, "Pull Request is not mergeable"),
        })],
    );

    let outcome = object.merge(merge_request()).unwrap();

    assert_eq!(outcome, ActionOutcome::Rejected { reason: RejectReason::NotMergeable });
    assert_eq!(object.row(), Some(snapshot()));
    let state = object.state.expect("the object keeps its state");
    assert_eq!(state.snapshot, Some(snapshot()));
    assert_eq!(
        last_line(&state),
        ("merge", "GitHub reports this pull request is not mergeable")
    );
}

#[test]
fn a_fatal_github_answer_fails_the_handler_with_the_state_untouched() {
    let mut object = pull_request(
        Some(synced()),
        vec![Answer::Merge(Settled::Fatal {
            response: response(500, "Internal Server Error"),
        })],
    );

    let error = object.merge(merge_request()).unwrap_err();

    assert_eq!(
        error,
        Fault::Terminal(
            "GitHub mutation failed with HTTP 500: Internal Server Error".to_owned()
        )
    );
    assert_eq!(object.state, Some(synced()));
    assert_eq!(object.store_steps, vec!["read-repository-merge-method"]);
    assert_eq!(object.row(), Some(snapshot()));
}

#[test]
fn a_target_the_guard_rejects_reaches_neither_github_nor_the_store() {
    let mut object = pull_request(Some(synced()), Vec::new());
    object.can_post_commands = true;
    let moved = PrTarget { expected_sha: "def456".to_owned(), ..target() };
    let stale = ActionOutcome::Rejected {
        reason: RejectReason::StaleSha {
            expected: "def456".to_owned(),
            actual: "abc123".to_owned(),
        },
    };

    let merge = object
        .merge(MergeRequest { target: moved.clone(), ..merge_request() })
        .unwrap();
    let command = object
        .command(CommandRequest { target: moved.clone(), ..command_request() })
        .unwrap();
    let update_branch = object
        .update_branch(UpdateBranchRequest { target: moved, ..update_branch_request() })
        .unwrap();

    assert_eq!((&merge, &command, &update_branch), (&stale, &stale, &stale));
    assert!(object.asked.is_empty(), "nothing was sent to GitHub");
    assert!(object.store_steps.is_empty(), "not even the merge method was read");
    assert!(object.scheduled.is_empty());
    assert_eq!(object.row(), Some(snapshot()));
    assert_eq!(object.state, Some(synced()));
}

#[test]
fn a_command_without_a_user_token_is_rejected_before_github_is_asked() {
    let mut object = pull_request(Some(synced()), Vec::new());

    let outcome = object.command(command_request()).unwrap();

    assert_eq!(outcome, ActionOutcome::Rejected { reason: RejectReason::NoUserToken });
    assert!(object.asked.is_empty());
    assert_eq!(object.state, Some(synced()));
}

#[test]
fn a_command_is_posted_and_logged_under_its_own_name() {
    let mut object = pull_request(
        Some(synced()),
        vec![Answer::Action(Settled::Done("@dependabot rebase posted".to_owned()))],
    );
    object.can_post_commands = true;

    let outcome = object.command(command_request()).unwrap();

    assert_eq!(
        outcome,
        ActionOutcome::Succeeded {
            detail: "@dependabot rebase posted".to_owned(),
            merge_sha: None,
        }
    );
    assert_eq!(object.asked, vec![(Operation::Comment, true)]);
    let state = object.state.expect("the object keeps its state");
    assert_eq!(state.snapshot, Some(snapshot()));
    assert_eq!(last_line(&state), ("rebase", "@dependabot rebase posted"));
}

#[test]
fn a_branch_update_that_landed_asks_for_a_sync_that_honours_the_debounce() {
    let mut object = pull_request(
        Some(synced()),
        vec![Answer::Action(Settled::Done("Updating pull request branch.".to_owned()))],
    );

    let outcome = object.update_branch(update_branch_request()).unwrap();

    assert_eq!(
        outcome,
        ActionOutcome::Succeeded {
            detail: "Updating pull request branch.".to_owned(),
            merge_sha: None,
        }
    );
    assert_eq!(object.asked, vec![(Operation::UpdateBranch, true)]);
    assert_eq!(object.scheduled, vec![(sync_request(), None)]);
    let state = object.state.expect("the object keeps its state");
    assert_eq!(state.snapshot, Some(snapshot()));
    assert_eq!(
        last_line(&state),
        ("update_branch", "Updating pull request branch.")
    );
}

#[test]
fn a_branch_update_github_rejected_asks_for_no_sync() {
    let mut object = pull_request(
        Some(synced()),
        vec![Answer::Action(Settled::Rejected {
            reason: RejectReason::Forbidden,
            response: response(403, "Resource not accessible by integration"),
        })],
    );

    let outcome = object.update_branch(update_branch_request()).unwrap();

    assert_eq!(outcome, ActionOutcome::Rejected { reason: RejectReason::Forbidden });
    assert!(object.scheduled.is_empty());
    assert_eq!(
        object.held().history.last().map(|log| log.detail.as_str()),
        Some("the configured identity is not allowed to perform this action")
    );
}

#[test]
fn closed_under_a_sweeps_fence_keeps_a_pull_request_synced_since() {
    let resynced = PrState { last_synced_at: Some(1_000), ..synced() };
    let mut object = pull_request(Some(resynced.clone()), Vec::new());

    let outcome = object.closed(ClosedRequest { synced_before: Some(900) }).unwrap();

    assert_eq!(outcome, ClosedOutcome::Kept);
    assert_eq!(outcome.outcome(), "kept; synced since the sweep began");
    assert_eq!(object.row(), Some(snapshot()));
    assert_eq!(object.state, Some(resynced));
}

#[test]
fn a_webhooks_closed_retires_the_row_and_the_state_together() {
    let mut object = pull_request(Some(synced()), Vec::new());

    let outcome = object.closed(ClosedRequest::default()).unwrap();

    assert_eq!(outcome, ClosedOutcome::Retired);
    assert_eq!(outcome.outcome(), "retired");
    assert_eq!(object.store_steps, vec!["delete-closed-pr-projection"]);
    assert_eq!(object.row(), None);
    assert_eq!(object.state, None);
    assert!(object.asked.is_empty(), "GitHub already said so");
}

#[test]
fn a_store_that_refuses_the_delete_leaves_the_state_for_the_retry() {
    let mut object = pull_request(Some(synced()), Vec::new());
    object.store_fails = true;

    let outcome = object.closed(ClosedRequest::default());

    assert!(outcome.is_err());
    assert_eq!(object.row(), Some(snapshot()));
    assert_eq!(object.state, Some(synced()), "row and state go together or not at all");
}

#[test]
fn a_merge_that_landed_drops_the_row_and_keeps_its_history_without_a_snapshot() {
    let mut object = pull_request(
        Some(synced()),
        vec![Answer::Merge(Settled::Done(Merged {
            detail: "merged".to_owned(),
            sha: Some(MERGE_SHA.to_owned()),
        }))],
    );

    let outcome = object.merge(merge_request()).unwrap();

    assert_eq!(
        outcome,
        ActionOutcome::Succeeded {
            detail: "merged".to_owned(),
            merge_sha: Some(MERGE_SHA.to_owned()),
        }
    );
    assert_eq!(object.asked, vec![(Operation::Merge, true)]);
    assert_eq!(object.row(), None, "the table no longer lists a merged pull request");
    let state = object.state.expect("the object keeps its history");
    assert_eq!(state.snapshot, None, "there is nothing left to act on");
    assert_eq!(last_line(&state), ("merge", "merged"));
}

#[test]
fn a_closing_of_an_object_with_no_pull_requests_key_fails() {
    assert_eq!(
        begin_closed("seven", None, ClosedRequest::default()),
        Err(Fault::Terminal("invalid pull request key: seven".to_owned()))
    );
}

#[test]
fn a_target_taken_from_the_current_snapshot_passes_the_guard() {
    assert_eq!(guard_target(&Some(snapshot()), &target()), Ok(()));
}

#[test]
fn a_target_the_object_holds_no_snapshot_for_is_not_found() {
    assert_eq!(guard_target(&None, &target()), Err(RejectReason::NotFound));
    let mut other_repository = target();
    other_repository.repo = "other".to_owned();
    assert_eq!(
        guard_target(&Some(snapshot()), &other_repository),
        Err(RejectReason::NotFound)
    );
}

#[test]
fn a_target_whose_head_has_moved_is_stale_and_names_both_shas() {
    let mut before_a_push = target();
    before_a_push.expected_sha = "def456".to_owned();

    assert_eq!(
        guard_target(&Some(snapshot()), &before_a_push),
        Err(RejectReason::StaleSha {
            expected: "def456".to_owned(),
            actual: "abc123".to_owned(),
        })
    );
}

#[test]
fn a_command_is_rejected_for_want_of_a_user_token_before_its_target_is_judged() {
    let mut before_a_push = target();
    before_a_push.expected_sha = "def456".to_owned();

    assert_eq!(
        guard_command(false, &Some(snapshot()), &target()),
        Err(RejectReason::NoUserToken)
    );
    assert_eq!(
        guard_command(false, &Some(snapshot()), &before_a_push),
        Err(RejectReason::NoUserToken),
        "the missing token outranks a stale head"
    );
    assert_eq!(
        guard_command(false, &None, &target()),
        Err(RejectReason::NoUserToken),
        "and a pull request the object holds no snapshot for"
    );
    assert_eq!(guard_command(true, &Some(snapshot()), &target()), Ok(()));
    assert_eq!(
        guard_command(true, &Some(snapshot()), &before_a_push),
        Err(RejectReason::StaleSha {
            expected: "def456".to_owned(),
            actual: "abc123".to_owned(),
        })
    );
}

#[test]
fn a_merge_uses_the_method_its_repository_resolved_at_its_last_sync() {
    let mut store = Tables::new();
    store.upsert_repo(RepoRecord { merge_method: Some(MergeMethod::Rebase), ..repository() });
    store.upsert_repo(RepoRecord { repository_id: 8, ..repository() });

    assert_eq!(repository_merge_method(store.get_repo(7)), Some(MergeMethod::Rebase));
    assert_eq!(repository_merge_method(store.get_repo(8)), None);
    assert_eq!(repository_merge_method(store.get_repo(9)), None);
}

#[test]
fn a_manual_sync_bypasses_the_event_debounce() {
    assert!(should_debounce_sync(false, Some(100), 101, DEBOUNCE));
    assert!(!should_debounce_sync(true, Some(100), 101, DEBOUNCE));
}

#[test]
fn dashboard_sync_bypasses_the_event_debounce() {
    assert!(should_debounce_sync(false, Some(100), 101, 20));
    assert!(!should_debounce_sync(true, Some(100), 101, 20));
    assert!(!should_debounce_sync(false, Some(100), 120, 20), "the window has passed");
    assert!(!should_debounce_sync(false, None, 101, 20), "nothing was synced yet");
}

#[test]
fn a_sweep_fence_spares_a_pull_request_synced_since_the_listing_started() {
    let resynced = Some(PrState { last_synced_at: Some(1_000), ..PrState::default() });
    let sweep_began_at = |synced_before| ClosedRequest { synced_before: Some(synced_before) };

    assert!(!closed_retires(&resynced, sweep_began_at(900)));
    assert!(!closed_retires(&resynced, sweep_began_at(1_000)));
    assert!(closed_retires(&resynced, sweep_began_at(1_001)));
}

#[test]
fn a_webhook_closed_retires_regardless_of_sync_time() {
    let fresh = Some(PrState { last_synced_at: Some(u64::MAX), ..PrState::default() });

    assert!(closed_retires(&fresh, ClosedRequest::default()));
    assert!(closed_retires(&None, ClosedRequest::default()));
}

#[test]
fn an_unsynced_object_never_outranks_a_sweep_fence() {
    let never_synced = Some(PrState { sync_pending: true, ..PrState::default() });
    let fence = ClosedRequest { synced_before: Some(900) };

    assert!(closed_retires(&never_synced, fence));
    assert!(closed_retires(&None, fence));
}

#[test]
fn target_routing_must_match_the_canonical_snapshot() {
    assert!(target_matches_snapshot(&target(), &snapshot()));
    let mut other = target();
    other.repo = "other".to_owned();
    assert!(!target_matches_snapshot(&other, &snapshot()));
}

#[test]
fn a_row_and_its_object_agree_on_a_sweeps_fence() {
    for (synced_at, kept) in [(899, false), (900, true), (901, true)] {
        let row = PrRecord { synced_at, ..snapshot() };
        let mut store = Tables::new();
        store.upsert_repo(repository());
        store.upsert_pr(row.clone());
        store.retain_prs(7, &Vec::new(), 900);
        let held = Some(PrState {
            last_synced_at: Some(synced_at),
            snapshot: Some(row),
            ..PrState::default()
        });

        assert_eq!(store.get_pr(PrKey::new(7, 9)).is_some(), kept);
        assert_eq!(
            closed_retires(&held, ClosedRequest { synced_before: Some(900) }),
            !kept
        );
    }
}

#[test]
fn outcomes_read_in_the_log_as_what_they_are() {
    assert_eq!(().outcome(), "ok");
    assert_eq!("fanned out".to_owned().outcome(), "fanned out");
    assert_eq!(Some(7).outcome(), "found");
    assert_eq!(None::<PrState>.outcome(), "absent");
    assert_eq!(
        ActionOutcome::Succeeded { detail: "merged".to_owned(), merge_sha: None }.outcome(),
        "succeeded"
    );
    assert_eq!(
        ActionOutcome::Rejected { reason: RejectReason::NotMergeable }.outcome(),
        "rejected: GitHub reports this pull request is not mergeable"
    );
    assert_eq!(
        ActionOutcome::Rejected { reason: RejectReason::NoUserToken }.outcome(),
        "rejected: no GitHub user token is configured for @dependabot commands"
    );
    assert_eq!(SyncOutcome::Debounced.outcome(), "debounced");
}

#[test]
fn a_pull_requests_key_reads_back() {
    assert_eq!(PrKey::new(7, 9).text(), "7#9");
    assert_eq!(PrKey::parse("7#9"), Some(PrKey::new(7, 9)));
    for text in ["7", "7#", "#9", "7#9#1", "a#9", "18446744073709551616#1"] {
        assert_eq!(PrKey::parse(text), None, "{text}");
    }
}

#[test]
fn a_trailing_sync_reads_once_its_delay_is_over() {
    let held = PrState { last_synced_at: Some(CLOCK_EPOCH), ..synced() };
    let SyncStart::Trailing { state, request, after_seconds } =
        begin_sync(sync_request(), Some(held), CLOCK_EPOCH + 5, DEBOUNCE)
    else {
        panic!("an event inside the window schedules a trailing sync");
    };
    assert!(state.sync_pending);

    let later = CLOCK_EPOCH + 5 + after_seconds;
    let SyncStart::Read(read) = begin_sync(request, Some(state), later, DEBOUNCE) else {
        panic!("the trailing sync reads");
    };
    assert!(!read.state.sync_pending);
    assert_eq!(read.request, sync_request());
}

#[test]
fn a_merged_pull_request_is_not_merged_again() {
    let MutationStart::Send(mutation) = begin_merge(merge_request(), Some(synced())) else {
        panic!("a synced head can be merged");
    };
    let landed = Settled::Done(Merged {
        detail: "merged".to_owned(),
        sha: Some(MERGE_SHA.to_owned()),
    });
    let Ok(MergeWrite::Delete(key, log)) = mutation.merged(landed) else {
        panic!("a merge that landed drops its row");
    };
    assert_eq!(key, PrKey::new(7, 9));
    let (state, _) = log.logged_at(CLOCK_EPOCH);

    assert_eq!(
        begin_merge(merge_request(), Some(state)),
        MutationStart::Refused(ActionOutcome::Rejected { reason: RejectReason::NotFound })
    );
}

#[test]
fn what_a_sync_found_can_be_acted_on() {
    let SyncStart::Read(read) = begin_sync(sync_request(), None, CLOCK_EPOCH, DEBOUNCE) else {
        panic!("the first sync reads");
    };
    let Ok(SyncWrite::Upsert(upsert)) = read.fetched(Settled::Done(Some(snapshot()))) else {
        panic!("a snapshot goes to the row");
    };
    let (state, outcome) = upsert.projected(Ok::<(), Fault>(()));
    assert!(outcome.is_ok());

    assert!(matches!(begin_merge(merge_request(), Some(state)), MutationStart::Send(_)));
}
