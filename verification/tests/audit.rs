use dependaboard::api::{batch_asked_after, recent_batches_limit, InvalidBatch};
use dependaboard::audit::{get_batch, recent_batches, running_batches, ProjectedBatch};
use dependaboard::model::{BulkActionKind, UserId};
use dependaboard::progress::{BatchRecord, BatchTargetRecord, RunningBatch, TargetOutcome};
use dependaboard::projection::Tables;

const INSTALLATION_ID: u64 = 42;
const USERNAME: &str = "dependaboard";
const BATCH: &str = "0199c0ff-ee00-7000-8000-000000000001";
const OTHER_BATCH: &str = "0199c0ff-ee00-7000-8000-000000000002";
const UNKNOWN_BATCH: &str = "01926e3a-7c1e-7b7d-9f8b-2b4c6d8e0f1c";

fn listed(installation_id: u64, batch_id: &str) -> RunningBatch {
    RunningBatch {
        batch_id: batch_id.to_owned(),
        installation_id,
        action: BulkActionKind::Merge,
        requested_by: UserId::new(USERNAME),
        retried_from: None,
        started_at: 2_000,
        target_count: 3,
    }
}

fn recorded(installation_id: u64, batch_id: &str) -> BatchRecord {
    BatchRecord {
        batch_id: batch_id.to_owned(),
        installation_id,
        action: BulkActionKind::Rebase,
        requested_by: UserId::new(USERNAME),
        retried_from: None,
        started_at: 1_000,
        completed_at: 1_030,
        succeeded: 1,
        rejected: 0,
        failed: 0,
        targets: vec![BatchTargetRecord {
            repository_id: 7,
            owner: "acme".to_owned(),
            repo: "api".to_owned(),
            number: 9,
            title: "Bump the cargo group".to_owned(),
            html_url: "https://github.example/acme/api/pull/9".to_owned(),
            head_sha: Some("abc123".to_owned()),
            outcome: TargetOutcome::Succeeded {
                detail: "@dependabot rebase posted".to_owned(),
                merge_sha: None,
            },
        }],
    }
}

fn completed(installation_id: u64, batch_id: &str, completed_at: u64) -> BatchRecord {
    BatchRecord { completed_at, ..recorded(installation_id, batch_id) }
}

/// A projection with one batch running and one finished.
fn backend() -> (Tables, RunningBatch, BatchRecord) {
    let mut tables = Tables::new();
    let running = RunningBatch {
        retried_from: Some(BATCH.to_owned()),
        ..listed(INSTALLATION_ID, OTHER_BATCH)
    };
    let finished = recorded(INSTALLATION_ID, BATCH);
    tables.start_batch(running.clone());
    tables.record_batch(finished.clone());
    (tables, running, finished)
}

/// The ids of the batches an installation finished last.
fn recent(tables: &Tables, installation_id: u64, limit: u32) -> Vec<&str> {
    recent_batches(tables, installation_id, limit)
        .into_iter()
        .map(|at| tables.batches[at].batch_id.as_str())
        .collect()
}

#[test]
fn recent_batches_list_the_running_ones_beside_the_finished_ones() {
    let (tables, running, finished) = backend();

    let at = running_batches(&tables, INSTALLATION_ID);
    assert_eq!(at.len(), 1);
    assert_eq!(tables.running_batches[at[0]], running);

    let at = recent_batches(&tables, INSTALLATION_ID, recent_batches_limit(20));
    assert_eq!(at.len(), 1);
    assert_eq!(tables.batches[at[0]], finished);
}

#[test]
fn one_batch_is_read_from_the_projection_as_finished_running_or_unknown() {
    let (tables, running, finished) = backend();

    match get_batch(&tables, INSTALLATION_ID, BATCH) {
        Some(ProjectedBatch::Finished(at)) => assert_eq!(tables.batches[at], finished),
        other => panic!("{other:?}"),
    }
    match get_batch(&tables, INSTALLATION_ID, OTHER_BATCH) {
        Some(ProjectedBatch::Running(at)) => assert_eq!(tables.running_batches[at], running),
        other => panic!("{other:?}"),
    }
    assert_eq!(get_batch(&tables, INSTALLATION_ID, UNKNOWN_BATCH), None);

    assert_eq!(batch_asked_after("batch-1"), Err(InvalidBatch::BatchId.text()));
}

#[test]
fn another_installations_batches_are_neither_listed_nor_read() {
    let (tables, _, _) = backend();

    assert!(running_batches(&tables, INSTALLATION_ID + 1).is_empty());
    assert!(recent_batches(&tables, INSTALLATION_ID + 1, 20).is_empty());
    assert_eq!(get_batch(&tables, INSTALLATION_ID + 1, BATCH), None);
    assert_eq!(get_batch(&tables, INSTALLATION_ID + 1, OTHER_BATCH), None);
}

#[test]
fn finished_batches_are_listed_newest_first_up_to_the_limit() {
    let mut tables = Tables::new();
    for (batch_id, completed_at) in [("b", 20), ("d", 40), ("a", 10), ("c", 30), ("e", 40)] {
        tables.record_batch(completed(INSTALLATION_ID, batch_id, completed_at));
    }
    tables.record_batch(completed(INSTALLATION_ID + 1, "f", 50));

    assert_eq!(recent(&tables, INSTALLATION_ID, 20), ["d", "e", "c", "b", "a"]);
    assert_eq!(recent(&tables, INSTALLATION_ID, 3), ["d", "e", "c"]);
    assert_eq!(recent(&tables, INSTALLATION_ID, 1), ["d"]);
    assert!(recent(&tables, INSTALLATION_ID, 0).is_empty());
}

#[test]
fn a_batch_reads_as_running_until_it_is_recorded() {
    let mut tables = Tables::new();
    assert_eq!(get_batch(&tables, INSTALLATION_ID, BATCH), None);

    tables.start_batch(listed(INSTALLATION_ID, BATCH));
    assert_eq!(get_batch(&tables, INSTALLATION_ID, BATCH), Some(ProjectedBatch::Running(0)));

    tables.record_batch(recorded(INSTALLATION_ID, BATCH));
    assert_eq!(get_batch(&tables, INSTALLATION_ID, BATCH), Some(ProjectedBatch::Finished(0)));
    assert!(running_batches(&tables, INSTALLATION_ID).is_empty());
}
