use dependaboard::api::{
    batch_asked_after, load_pr_status, new_batch_id, projected_pr, recent_batches_limit,
    request_pr_sync, restate_unavailable, store_failure, valid_batch_id, validate_batch,
    validate_batch_request, BatchReceipt, BatchSubmission, InvalidBatch, ReadFailure,
    SubmittedTarget, MAX_BATCH_TARGETS, MAX_RECENT_BATCHES,
};
use dependaboard::fault::Fault;
use dependaboard::model::{
    BulkActionKind, BulkRequest, ManualSyncRequest, PrKey, PrRecord, PrTarget, RepoRecord, UserId,
};
use dependaboard::projection::Tables;
use dependaboard::restate::RestateIngressError;

const INSTALLATION_ID: u64 = 42;
const USERNAME: &str = "dependaboard";
const BATCH: &str = "0199c0ff-ee00-7000-8000-000000000001";
const OTHER_BATCH: &str = "01926e3a-7c1e-7b7d-9f8b-2b4c6d8e0f1c";
const TITLE: &str = "Bump the cargo group";

/// Pull request 9 of `acme/api`, repository 7.
fn grouped_row() -> PrRecord {
    PrRecord {
        repository_id: 7,
        installation_id: INSTALLATION_ID,
        owner: "acme".to_owned(),
        repo: "api".to_owned(),
        number: 9,
        title: TITLE.to_owned(),
        html_url: "https://github.example/acme/api/pull/9".to_owned(),
        head_sha: "abc123".to_owned(),
        synced_at: 0,
        payload: String::new(),
    }
}

/// Pull request 12 of `acme/web`, repository 8.
fn serde_row() -> PrRecord {
    PrRecord {
        repository_id: 8,
        repo: "web".to_owned(),
        number: 12,
        ..grouped_row()
    }
}

fn project(store: &mut Tables, installation_id: u64, row: PrRecord) {
    store.upsert_repo(RepoRecord {
        repository_id: row.repository_id,
        installation_id,
        owner: row.owner.clone(),
        repo: row.repo.clone(),
        merge_method: None,
        synced_at: 0,
    });
    store.upsert_pr(row);
}

/// A projection of one row of the configured installation, and one of another.
fn backend() -> Tables {
    let mut store = Tables::new();
    project(&mut store, INSTALLATION_ID, grouped_row());
    project(&mut store, INSTALLATION_ID + 1, serde_row());
    store
}

fn submitted(repository_id: u64, number: u64, expected_sha: &str) -> SubmittedTarget {
    SubmittedTarget { repository_id, number, expected_sha: expected_sha.to_owned() }
}

/// Submits a merge batch: what would be sent to Restate, and what the browser is told; with
/// how many keys were looked up.
fn submit(
    store: &Tables,
    batch_id: &str,
    targets: Vec<SubmittedTarget>,
    retried_from: Option<&str>,
) -> (Result<(BulkRequest, BatchReceipt), String>, usize) {
    let begun = BatchSubmission::begin(
        INSTALLATION_ID,
        UserId::new(USERNAME),
        batch_id,
        BulkActionKind::Merge,
        targets,
        retried_from.map(str::to_owned),
    );
    let mut submission = match begun {
        Ok(submission) => submission,
        Err(message) => return (Err(message), 0),
    };
    let mut looked_up = 0;
    while let Some(key) = submission.next() {
        looked_up += 1;
        if let Err(message) = submission.note(store.get_pr(key)) {
            return (Err(message), looked_up);
        }
    }
    (submission.finish(), looked_up)
}

fn refusal<T: std::fmt::Debug>(result: Result<T, String>) -> String {
    result.expect_err("a refusal")
}

#[test]
fn infrastructure_failures_reach_the_browser_without_their_detail() {
    let detail = "libsql://db.internal: connection refused (token=abc)";
    let store = store_failure(ReadFailure::Store(detail.to_owned()));
    let restate = restate_unavailable(&RestateIngressError::Status {
        code: 502,
        body: detail.to_owned(),
    });

    for message in [store, restate] {
        assert!(!message.contains(detail), "{message}");
        assert!(!message.contains("libsql"), "{message}");
        assert!(!message.is_empty());
    }
}

#[test]
fn a_bad_page_cursor_is_reported_as_such() {
    assert_eq!(
        store_failure(ReadFailure::Cursor("invalid page cursor".to_owned())),
        "invalid page cursor"
    );
}

#[test]
fn a_batch_carries_the_projections_word_on_its_targets_and_the_browsers_on_the_head_and_the_batch_retried(
) {
    let (finished, _) = submit(
        &backend(),
        OTHER_BATCH,
        vec![submitted(7, 9, "before-the-push")],
        Some(BATCH),
    );

    let (request, receipt) = finished.unwrap();
    assert_eq!(
        request,
        BulkRequest {
            action: BulkActionKind::Merge,
            user_id: UserId::new(USERNAME),
            retried_from: Some(BATCH.to_owned()),
            targets: vec![PrTarget {
                repository_id: 7,
                owner: "acme".to_owned(),
                repo: "api".to_owned(),
                number: 9,
                expected_sha: "before-the-push".to_owned(),
                title: TITLE.to_owned(),
                html_url: "https://github.example/acme/api/pull/9".to_owned(),
            }],
        }
    );
    assert_eq!(receipt, BatchReceipt { left_out: vec![] });
    assert_eq!(validate_batch_request(OTHER_BATCH, &request), Ok(()));
}

#[test]
fn a_target_gone_from_the_projection_is_left_out_and_the_rest_run() {
    let (finished, looked_up) = submit(
        &backend(),
        BATCH,
        vec![submitted(7, 9, "abc123"), submitted(7, 10, "abc124")],
        None,
    );

    let (request, receipt) = finished.unwrap();
    assert_eq!(receipt, BatchReceipt { left_out: vec![PrKey::new(7, 10)] });
    assert_eq!(
        request.targets.iter().map(|target| target.number).collect::<Vec<_>>(),
        [9]
    );
    assert_eq!(looked_up, 2);
}

#[test]
fn a_submission_with_no_resolvable_target_is_refused_whole() {
    let (finished, _) = submit(
        &backend(),
        BATCH,
        vec![submitted(7, 10, "abc124"), submitted(7, 11, "abc125")],
        None,
    );

    assert_eq!(
        refusal(finished),
        "none of the 2 pull requests submitted are still in the dashboard"
    );
}

#[test]
fn a_batch_with_a_target_from_another_installation_is_refused_whole() {
    let (finished, looked_up) = submit(
        &backend(),
        BATCH,
        vec![
            submitted(7, 9, "abc123"),
            submitted(8, 12, "def456"),
            submitted(7, 10, "abc124"),
        ],
        None,
    );

    assert_eq!(
        refusal(finished),
        "pull request #12 does not belong to the configured installation"
    );
    assert_eq!(looked_up, 2, "nothing is looked up after the refusal");
}

#[test]
fn a_submission_is_held_to_the_batch_rules_before_its_targets_are_resolved() {
    let store = backend();
    let own = || submitted(7, 9, "abc123");
    let unknown = || submitted(7, 10, "abc124");

    let bad_id = submit(
        &store,
        "550e8400-e29b-41d4-a716-446655440000",
        vec![unknown()],
        None,
    );
    assert_eq!(bad_id, (Err("batch id must be a UUIDv7".to_owned()), 0));

    let empty = submit(&store, BATCH, vec![], None);
    assert_eq!(
        empty,
        (Err("batch must contain between 1 and 100 targets".to_owned()), 0)
    );

    let repeated = submit(&store, BATCH, vec![own(), unknown(), own()], None);
    assert_eq!(
        repeated,
        (Err("batch contains duplicate pull requests".to_owned()), 0)
    );

    let retry_of_nothing = submit(&store, BATCH, vec![own()], Some("batch-a"));
    assert_eq!(
        retry_of_nothing,
        (Err("the batch retried must be named by a UUIDv7".to_owned()), 0)
    );
}

#[test]
fn a_pull_request_sync_is_resolved_from_the_projection_and_held_to_the_installation() {
    let store = backend();
    let sync = |key: PrKey| request_pr_sync(INSTALLATION_ID, key, store.get_pr(key), "sync-1");

    assert_eq!(
        refusal(sync(PrKey::new(7, 99))),
        "pull request #99 is no longer in the dashboard"
    );
    assert_eq!(
        refusal(sync(PrKey::new(8, 12))),
        "pull request #12 does not belong to the configured installation"
    );
    assert_eq!(
        sync(PrKey::new(7, 9)),
        Ok(ManualSyncRequest {
            repository_id: 7,
            owner: "acme".to_owned(),
            repo: "api".to_owned(),
            number: 9,
            completion_id: "sync-1".to_owned(),
        })
    );
}

#[test]
fn a_pull_request_row_is_read_only_within_the_installation() {
    let store = backend();
    let read = |key: PrKey| projected_pr(INSTALLATION_ID, key, store.get_pr(key));

    assert_eq!(
        refusal(read(PrKey::new(8, 12))),
        "pull request #12 does not belong to the configured installation"
    );
    assert_eq!(read(PrKey::new(7, 99)), Ok(None));
    assert_eq!(read(PrKey::new(7, 9)), Ok(Some(grouped_row())));
}

#[test]
fn a_pull_request_status_is_asked_of_restate_only_for_a_key_the_projection_has() {
    let store = backend();
    let asked = |key: PrKey| load_pr_status(INSTALLATION_ID, key, store.get_pr(key));

    assert_eq!(asked(PrKey::new(7, 99)), Ok(None));
    let own = asked(PrKey::new(7, 9)).unwrap().expect("Restate is asked");
    assert_eq!(own.url(""), "/restate/call/PullRequest/7%239/status");
    assert_eq!(
        refusal(asked(PrKey::new(8, 12))),
        "pull request #12 does not belong to the configured installation"
    );
}

#[test]
fn a_batch_is_asked_after_by_an_id_a_batch_can_have() {
    assert_eq!(batch_asked_after(BATCH), Ok(()));
    assert_eq!(
        batch_asked_after("batch-1"),
        Err("batch id must be a UUIDv7".to_owned())
    );
}

#[test]
fn a_batch_id_is_a_hyphenated_uuid_of_version_seven() {
    for id in [BATCH, OTHER_BATCH, "01926E3A-7C1E-7B7D-BF8B-2B4C6D8E0F1C"] {
        assert!(valid_batch_id(id), "{id}");
    }
    for id in [
        "",
        "batch-1",
        "550e8400-e29b-41d4-a716-446655440000",
        "01926e3a7c1e7b7d9f8b2b4c6d8e0f1c",
        "01926e3a-7c1e-7b7d-9f8b-2b4c6d8e0f1",
        "01926e3a-7c1e-7b7d-9f8b-2b4c6d8e0f1c0",
        "01926e3a-7c1e-7b7d-cf8b-2b4c6d8e0f1c",
        "01926e3a-7c1e-7b7d-9f8b-2b4c6d8e0f1g",
        "01926e3a+7c1e-7b7d-9f8b-2b4c6d8e0f1c",
    ] {
        assert!(!valid_batch_id(id), "{id}");
    }
}

#[test]
fn batch_validation_rejects_duplicate_targets() {
    let target = || PrTarget {
        repository_id: 7,
        owner: "acme".to_owned(),
        repo: "api".to_owned(),
        number: 9,
        expected_sha: "abc123".to_owned(),
        title: "Bump serde".to_owned(),
        html_url: "https://github.com/acme/api/pull/9".to_owned(),
    };
    let request = |targets: Vec<PrTarget>| BulkRequest {
        action: BulkActionKind::Merge,
        targets,
        user_id: UserId::new("dashboard"),
        retried_from: None,
    };
    let fails = |message: &str| Err(Fault::Terminal(message.to_owned()));

    assert!(validate_batch_request(BATCH, &request(vec![target(), target()])).is_err());
    assert_eq!(
        validate_batch_request(BATCH, &request(vec![target(), target()])),
        fails("batch contains duplicate pull requests")
    );
    assert_eq!(
        validate_batch_request("batch-1", &request(vec![target()])),
        fails("batch key must be a UUIDv7")
    );
    assert_eq!(
        validate_batch_request(BATCH, &request(vec![])),
        fails("batch must contain between 1 and 100 targets")
    );
    assert_eq!(validate_batch_request(BATCH, &request(vec![target()])), Ok(()));
}

#[test]
fn a_batch_holds_at_most_a_hundred_targets() {
    let keys = |n: u64| (0..n).map(|number| PrKey::new(7, number)).collect::<Vec<_>>();

    assert_eq!(MAX_BATCH_TARGETS, 100);
    assert_eq!(validate_batch(BATCH, None, &keys(100)), Ok(()));
    assert_eq!(
        validate_batch(BATCH, Some(OTHER_BATCH), &keys(101)),
        Err(InvalidBatch::TargetCount)
    );
}

#[test]
fn a_read_of_recent_batches_is_held_to_bounds() {
    assert_eq!(recent_batches_limit(0), 1);
    assert_eq!(recent_batches_limit(20), 20);
    assert_eq!(recent_batches_limit(u32::MAX), MAX_RECENT_BATCHES);
}

#[test]
fn a_minted_id_is_of_its_moment_and_its_random_bits() {
    let id = new_batch_id(0x0199_c0ff_ee00, (0xabc_d123, 0xffff_0123_4567_89ab));

    assert_eq!(id, "0199c0ff-ee00-7123-abcd-0123456789ab");
    assert!(valid_batch_id(&id));
    assert_eq!(new_batch_id(0, (0, 0)), "00000000-0000-7000-8000-000000000000");
    assert_eq!(
        new_batch_id(u64::MAX, (u64::MAX, u64::MAX)),
        "ffffffff-ffff-7fff-bfff-ffffffffffff"
    );
}
