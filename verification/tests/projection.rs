use dependaboard::github::GithubError;
use dependaboard::model::{
    BulkActionKind, CommandRequest, DependabotCommand, MergeMethod, MergeRequest, PrKey, PrRecord,
    PrTarget, RepoRecord, SyncRequest, UpdateBranchRequest, UserId,
};
use dependaboard::progress::{BatchRecord, RunningBatch};
use dependaboard::projection::Tables;
use dependaboard::pull_request::{closed_retires, ClosedRequest};
use dependaboard::retirement::retire_pending;
use dependaboard::scripted::{Answers, GithubCall, ScriptedGithub};
use dependaboard::sweep::InstallationPurge;

fn repository() -> RepoRecord {
    RepoRecord {
        repository_id: 7,
        installation_id: 1,
        owner: "acme".to_owned(),
        repo: "api".to_owned(),
        merge_method: None,
        synced_at: 0,
    }
}

fn snapshot() -> PrRecord {
    PrRecord {
        repository_id: 7,
        installation_id: 1,
        owner: "acme".to_owned(),
        repo: "api".to_owned(),
        number: 9,
        title: "Bump serde".to_owned(),
        html_url: "https://github.com/acme/api/pull/9".to_owned(),
        head_sha: "abc123".to_owned(),
        synced_at: 0,
        payload: "{\"dependency\":\"serde\"}".to_owned(),
    }
}

fn pull(repository_id: u64, number: u64, synced_at: u64) -> PrRecord {
    PrRecord { repository_id, number, synced_at, ..snapshot() }
}

#[test]
fn retention_prunes_only_rows_absent_from_the_listing_and_synced_before_it_started() {
    let mut tables = Tables::new();
    tables.upsert_repo(repository());
    tables.upsert_repo(RepoRecord { repository_id: 8, ..repository() });
    for row in [pull(7, 1, 500), pull(7, 2, 500), pull(7, 3, 1_000), pull(8, 1, 500)] {
        tables.upsert_pr(row);
    }

    let pruned = tables.retain_prs(7, &vec![1], 1_000);

    assert_eq!(pruned, vec![PrKey::new(7, 2)]);
    assert!(tables.get_pr(PrKey::new(7, 1)).is_some());
    assert!(
        tables.get_pr(PrKey::new(7, 3)).is_some(),
        "a webhook synced it since the listing started; it may have been reopened"
    );
    assert!(
        tables.get_pr(PrKey::new(8, 1)).is_some(),
        "another repository's rows are none of this sweep's business"
    );
    assert!(tables.get_pr(PrKey::new(7, 2)).is_none());
}

#[test]
fn purging_an_installation_takes_its_pull_requests_with_its_repositories() {
    let mut tables = Tables::new();
    tables.upsert_repo(repository());
    tables.upsert_repo(RepoRecord { repository_id: 8, installation_id: 2, ..repository() });
    tables.upsert_pr(pull(7, 9, 0));
    tables.upsert_pr(pull(7, 3, 0));
    tables.upsert_pr(pull(8, 1, 0));

    let purged = tables.purge_installation(1);

    assert_eq!(purged, vec![PrKey::new(7, 3), PrKey::new(7, 9)]);
    assert!(tables.get_repo(7).is_none());
    assert!(tables.get_pr(PrKey::new(7, 9)).is_none());
    assert!(tables.get_repo(8).is_some());
    assert_eq!(
        tables.get_pr(PrKey::new(8, 1)).map(|row| row.installation_id),
        Some(2),
        "a pull request reads back with its repository's installation"
    );
}

#[test]
fn replacing_the_installation_repositories_reports_the_pull_requests_that_left_with_them() {
    let mut tables = Tables::new();
    for repository_id in [7, 8] {
        tables.upsert_repo(RepoRecord { repository_id, synced_at: 100, ..repository() });
    }
    tables.upsert_pr(pull(7, 9, 0));
    tables.upsert_pr(pull(7, 3, 0));
    tables.upsert_pr(pull(8, 1, 0));

    let cascaded = tables.replace_installation_repos(
        1,
        &vec![RepoRecord { repository_id: 8, synced_at: 500, ..repository() }],
        200,
    );

    assert_eq!(cascaded, vec![PrKey::new(7, 3), PrKey::new(7, 9)]);
    assert!(tables.get_repo(7).is_none());
    assert!(tables.get_pr(PrKey::new(7, 9)).is_none());
    assert_eq!(
        tables.get_repo(8).map(|repo| repo.synced_at),
        Some(500),
        "the repository that stayed carries the fresh listing"
    );
    assert!(tables.get_pr(PrKey::new(8, 1)).is_some());
}

#[test]
fn every_prune_queues_what_it_removed_with_its_fence_until_acknowledged() {
    let mut tables = Tables::new();
    tables.upsert_repo(repository());
    tables.upsert_repo(RepoRecord { repository_id: 8, ..repository() });
    tables.upsert_pr(pull(7, 1, 0));
    tables.upsert_pr(pull(7, 2, 0));
    tables.upsert_pr(pull(8, 1, 0));

    tables.retain_prs(7, &vec![2], 500);
    let read = tables.pending_retirements();
    tables.purge_installation(1);

    assert_eq!(
        read.iter()
            .map(|retirement| (retirement.key, retirement.synced_before))
            .collect::<Vec<_>>(),
        vec![(PrKey::new(7, 1), Some(500))]
    );
    tables.acknowledge_retirements(read.last().unwrap().id);
    let pending = tables.pending_retirements();
    assert_eq!(
        pending
            .iter()
            .map(|retirement| (retirement.key, retirement.synced_before))
            .collect::<Vec<_>>(),
        vec![(PrKey::new(7, 2), None), (PrKey::new(8, 1), None)],
        "what was queued after the read survives its acknowledgement"
    );
    assert!(pending.iter().all(|retirement| retirement.id > read[0].id));
}

#[test]
fn a_drain_tells_what_a_prune_removed_and_leaves_the_outbox_empty() {
    let mut tables = Tables::new();
    tables.upsert_repo(repository());
    tables.upsert_pr(pull(7, 1, 400));
    tables.upsert_pr(pull(7, 2, 600));

    tables.retain_prs(7, &Vec::new(), 500);
    let (pruned, _) = InstallationPurge { installation_id: 1 }.landed();
    let drain = retire_pending(pruned, &tables.pending_retirements());

    assert_eq!(
        drain.closes,
        vec![(PrKey::new(7, 1), ClosedRequest { synced_before: Some(500) })]
    );
    assert!(closed_retires(&None, drain.closes[0].1));
    tables.acknowledge_retirements(drain.acknowledge.unwrap());
    assert!(tables.pending_retirements().is_empty());
    assert!(tables.get_pr(PrKey::new(7, 2)).is_some());
}

#[test]
fn a_row_is_replaced_under_its_key_and_deleted_by_it() {
    let mut tables = Tables::new();
    tables.upsert_repo(repository());
    tables.upsert_pr(pull(7, 9, 1));
    tables.upsert_pr(pull(7, 4, 1));
    tables.upsert_pr(PrRecord { head_sha: "def456".to_owned(), ..pull(7, 9, 2) });

    assert_eq!(
        tables.get_pr(PrKey::new(7, 9)).map(|row| (row.head_sha, row.synced_at)),
        Some(("def456".to_owned(), 2))
    );
    assert_eq!(
        tables.prs_for_sha(7, "abc123").iter().map(|row| row.number).collect::<Vec<_>>(),
        vec![4]
    );

    tables.delete_pr(PrKey::new(7, 9));
    tables.delete_pr(PrKey::new(7, 9));
    assert!(tables.get_pr(PrKey::new(7, 9)).is_none());
    assert_eq!(tables.pull_requests.len(), 1);
    assert!(tables.pending_retirements().is_empty(), "a delete is no prune");
}

fn running(batch_id: &str, started_at: u64) -> RunningBatch {
    RunningBatch {
        batch_id: batch_id.to_owned(),
        installation_id: 1,
        action: BulkActionKind::Merge,
        requested_by: UserId::new("alice"),
        retried_from: None,
        started_at,
        target_count: 1,
    }
}

fn finished(batch_id: &str, completed_at: u64) -> BatchRecord {
    BatchRecord {
        batch_id: batch_id.to_owned(),
        installation_id: 1,
        action: BulkActionKind::Merge,
        requested_by: UserId::new("alice"),
        retried_from: None,
        started_at: 1,
        completed_at,
        succeeded: 0,
        rejected: 0,
        failed: 0,
        targets: Vec::new(),
    }
}

#[test]
fn a_batch_recorded_twice_keeps_its_first_record_and_ends_its_listing() {
    let mut tables = Tables::new();
    tables.start_batch(running("batch-1", 1));
    tables.start_batch(running("batch-1", 2));
    tables.start_batch(running("batch-2", 3));
    assert_eq!(tables.running_batches, vec![running("batch-1", 1), running("batch-2", 3)]);

    tables.record_batch(finished("batch-1", 10));
    tables.record_batch(finished("batch-1", 20));

    assert_eq!(tables.batches, vec![finished("batch-1", 10)]);
    assert_eq!(tables.running_batches, vec![running("batch-2", 3)]);
    tables.unlist_batch("batch-2");
    assert!(tables.running_batches.is_empty());
}

fn target() -> PrTarget {
    PrTarget {
        repository_id: 7,
        owner: "acme".to_owned(),
        repo: "api".to_owned(),
        number: 9,
        expected_sha: "abc123".to_owned(),
        title: "Bump serde".to_owned(),
        html_url: "https://github.com/acme/api/pull/9".to_owned(),
    }
}

fn sync_request() -> SyncRequest {
    SyncRequest {
        repository_id: 7,
        owner: "acme".to_owned(),
        repo: "api".to_owned(),
        number: 9,
        bypass_debounce: false,
        completion_id: None,
    }
}

fn merge() -> MergeRequest {
    MergeRequest { batch_id: "batch".to_owned(), target: target() }
}

fn command() -> CommandRequest {
    CommandRequest {
        batch_id: "batch".to_owned(),
        target: target(),
        user_id: UserId::new("dashboard"),
        command: DependabotCommand::Rebase,
    }
}

fn update() -> UpdateBranchRequest {
    UpdateBranchRequest { batch_id: "batch".to_owned(), target: target() }
}

#[test]
fn every_call_answers_from_its_script_in_order_and_is_recorded() {
    let mut github = ScriptedGithub::new(1);
    github.snapshots.push(Ok(Some(snapshot())));
    github.snapshots.push(Ok(None));
    github.installation_repositories.push(Ok(Vec::new()));
    github.dependabot_prs.push(Ok(vec![sync_request()]));
    github.merges.push(Ok("merged".to_owned()));
    github.commands.push(Err(GithubError::Config("no user token".to_owned())));
    github.branch_updates.push(Ok("updated".to_owned()));

    assert_eq!(github.fetch_snapshot(sync_request()).unwrap(), Some(snapshot()));
    assert_eq!(
        github.fetch_snapshot(sync_request()).unwrap(),
        None,
        "the second answer follows the first"
    );
    assert_eq!(github.list_installation_repositories().unwrap(), Vec::new());
    assert_eq!(
        github.list_dependabot_prs("acme", "api", 7).unwrap(),
        vec![sync_request()]
    );
    assert_eq!(github.merge(merge(), Some(MergeMethod::Rebase)).unwrap(), "merged");
    assert!(matches!(github.post_command(command()), Err(GithubError::Config(_))));
    assert_eq!(github.update_branch(update()).unwrap(), "updated");
    assert_eq!(
        github.calls,
        vec![
            GithubCall::FetchSnapshot(sync_request()),
            GithubCall::FetchSnapshot(sync_request()),
            GithubCall::ListInstallationRepositories,
            GithubCall::ListDependabotPrs {
                owner: "acme".to_owned(),
                repo: "api".to_owned(),
                repository_id: 7,
            },
            GithubCall::Merge {
                request: merge(),
                merge_method: Some(MergeMethod::Rebase),
            },
            GithubCall::PostCommand(command()),
            GithubCall::UpdateBranch(update()),
        ]
    );
    assert_eq!(github.installation_id, 1);
}

#[test]
fn answers_are_handed_out_first_to_last() {
    let mut answers: Answers<u64> = Answers::new();
    assert_eq!(answers.pop(), None);
    answers.push(1);
    answers.push(2);
    assert_eq!(answers.pop(), Some(1));
    answers.push(3);
    assert_eq!((answers.pop(), answers.pop(), answers.pop()), (Some(2), Some(3), None));
}

#[test]
fn a_written_row_reads_back_under_its_repositorys_installation_and_alone() {
    let mut tables = Tables::new();
    tables.upsert_repo(RepoRecord { installation_id: 42, ..repository() });
    tables.upsert_pr(pull(7, 1, 500));
    tables.upsert_pr(pull(7, 2, 500));
    let other = tables.get_pr(PrKey::new(7, 1));

    tables.upsert_pr(PrRecord { title: "Bump tokio".to_owned(), ..pull(7, 2, 600) });
    assert_eq!(
        tables.get_pr(PrKey::new(7, 2)),
        Some(PrRecord {
            title: "Bump tokio".to_owned(),
            installation_id: 42,
            ..pull(7, 2, 600)
        })
    );
    assert_eq!(tables.get_pr(PrKey::new(7, 1)), other);

    tables.delete_pr(PrKey::new(7, 2));
    assert_eq!(tables.get_pr(PrKey::new(7, 2)), None);
    assert_eq!(tables.get_pr(PrKey::new(7, 1)), other);
}

#[test]
fn ending_one_listing_leaves_the_others_in_their_order() {
    let mut tables = Tables::new();
    for batch_id in ["a", "b", "c"] {
        tables.start_batch(running(batch_id, 1));
    }
    tables.unlist_batch("b");
    tables.unlist_batch("d");

    assert_eq!(tables.running_batches, vec![running("a", 1), running("c", 1)]);
}
