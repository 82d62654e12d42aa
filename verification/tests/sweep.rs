use dependaboard::fault::Fault;
use dependaboard::github::{GithubErrorResponse, Settled};
use dependaboard::model::{PrKey, PrRecord, RepoRecord, Retirement, SyncRequest, SyncShaRequest};
use dependaboard::pull_request::ClosedRequest;
use dependaboard::retirement::{retire_pending, Drain, Pruned};
use dependaboard::scheduler::SchedulerState;
use dependaboard::sweep::{
    begin_purge, reconcile_outcome, sync_sha_outcome, sync_sha_requests,
    FencedInstallationSweep, FencedRepoSweep, InstallationPurge, InstallationSweep,
};

const CLOCK_EPOCH: u64 = 1_700_000_000;

fn dependabot_pull(number: u64) -> SyncRequest {
    SyncRequest {
        repository_id: 7,
        owner: "acme".to_owned(),
        repo: "api".to_owned(),
        number,
        bypass_debounce: false,
        completion_id: None,
    }
}

fn row_at_head(number: u64) -> PrRecord {
    PrRecord {
        repository_id: 7,
        installation_id: 1,
        owner: "acme".to_owned(),
        repo: "api".to_owned(),
        number,
        title: "Bump serde".to_owned(),
        html_url: "https://github.com/acme/api/pull/9".to_owned(),
        head_sha: "abc123".to_owned(),
        synced_at: 0,
        payload: String::new(),
    }
}

fn commit_status(pull_requests: &[u64]) -> SyncShaRequest {
    SyncShaRequest {
        repository_id: 7,
        owner: "acme".to_owned(),
        repo: "api".to_owned(),
        sha: "abc123".to_owned(),
        pull_requests: pull_requests.to_vec(),
    }
}

fn retirement(id: u64, key: PrKey, synced_before: Option<u64>) -> Retirement {
    Retirement { id, key, synced_before }
}

/// A prune that has landed.
fn a_prune() -> Pruned {
    InstallationPurge { installation_id: 1 }.landed().0
}

fn queued(keys: &[PrKey], synced_before: Option<u64>) -> Vec<Retirement> {
    keys.iter()
        .enumerate()
        .map(|(index, key)| retirement(index as u64 + 1, *key, synced_before))
        .collect()
}

fn fenced(synced_before: u64) -> ClosedRequest {
    ClosedRequest { synced_before: Some(synced_before) }
}

#[test]
fn a_commit_status_reaches_every_pull_request_at_that_head_once() {
    let sent = sync_sha_requests(
        &commit_status(&[19, 23]),
        &vec![row_at_head(12), row_at_head(19)],
    );

    assert_eq!(
        sent,
        vec![dependabot_pull(12), dependabot_pull(19), dependabot_pull(23)]
    );
    assert_eq!(
        sync_sha_outcome(sent.len(), "abc123456789"),
        "fanned out to 3 pull requests at abc1234"
    );
}

#[test]
fn a_commit_no_pull_request_is_at_syncs_nothing() {
    assert!(sync_sha_requests(&commit_status(&[]), &Vec::new()).is_empty());
    assert_eq!(sync_sha_outcome(0, "abc"), "fanned out to 0 pull requests at abc");
}

/// What a repository's sweep asked for.
#[derive(Default)]
struct Recorded {
    synced: Vec<PrKey>,
    retained: Option<Vec<u64>>,
    retained_under: Option<u64>,
    drain: Option<Drain>,
    /// What the clock stood at when the listing was asked for.
    clock_when_listed: Option<u64>,
}

fn bad_credentials<T>() -> Settled<T> {
    Settled::Fatal {
        response: GithubErrorResponse {
            status: 401,
            message: "Bad credentials".to_owned(),
            retry_after_seconds: None,
            rate_limit_remaining: None,
            rate_limit_reset: None,
        },
    }
}

fn read_only() -> Fault {
    Fault::Terminal("projection store is read-only".to_owned())
}

/// Sweeps a repository, with a clock that moves a second per reading: the syncs named fail, and
/// the prune lands unless it is scripted not to.
fn run_reconcile(
    recorded: &mut Recorded,
    listing: Settled<Vec<SyncRequest>>,
    failures: &[u64],
    prune_lands: bool,
    pending: &Vec<Retirement>,
) -> Result<usize, Fault> {
    let mut clock = CLOCK_EPOCH;
    let fenced = FencedRepoSweep { repository_id: 7, fence: clock };
    clock += 1;
    recorded.clock_when_listed = Some(clock);
    let mut sweep = fenced.listed(listing)?;
    while let Some((key, request)) = sweep.next() {
        recorded.synced.push(key);
        sweep.note(!failures.contains(&request.number));
    }
    let prune = sweep.prune();
    assert_eq!(prune.repository_id, 7);
    recorded.retained = Some(prune.live.clone());
    recorded.retained_under = Some(prune.synced_before);
    if !prune_lands {
        return Err(read_only());
    }
    let (pruned, finish) = prune.landed();
    let drain = retire_pending(pruned, pending);
    recorded.drain = Some(retire_pending(a_prune(), pending));
    finish.finish(drain.through())
}

fn reconcile(
    pulls: Vec<SyncRequest>,
    failures: &[u64],
    prune_lands: bool,
    pending: &Vec<Retirement>,
) -> (Recorded, Result<usize, Fault>) {
    let mut recorded = Recorded::default();
    let finished =
        run_reconcile(&mut recorded, Settled::Done(pulls), failures, prune_lands, pending);
    (recorded, finished)
}

fn failed_listing_never_reaches_retention() {
    let mut recorded = Recorded::default();
    let pending = queued(&[PrKey::new(7, 3)], Some(900));

    let outcome = run_reconcile(&mut recorded, bad_credentials(), &[], true, &pending);

    assert_eq!(
        outcome,
        Err(Fault::Terminal("GitHub read failed with HTTP 401: Bad credentials".to_owned()))
    );
    assert!(recorded.synced.is_empty());
    assert_eq!(recorded.retained, None, "an unknown live set must not delete anything");
    assert_eq!(recorded.drain, None, "nothing was pruned, so no durable state may be retired");
}

#[test]
fn repo_sync_a_failed_listing_never_reaches_retention() {
    failed_listing_never_reaches_retention();
}

#[test]
fn main_a_failed_listing_never_reaches_retention() {
    failed_listing_never_reaches_retention();
}

#[test]
fn the_reconcile_prunes_under_the_instant_read_before_its_listing() {
    let (recorded, finished) = reconcile(vec![dependabot_pull(12)], &[], true, &Vec::new());

    assert!(finished.is_ok());
    let fence = recorded.retained_under.expect("the retain ran under a fence");
    let listed = recorded.clock_when_listed.expect("the reconcile asked for the listing");
    assert!(fence < listed, "{fence} is not earlier than {listed}");
}

#[test]
fn every_pruned_pull_request_has_its_durable_state_closed_under_the_sweeps_fence() {
    let pending = queued(&[PrKey::new(7, 3), PrKey::new(7, 9)], Some(CLOCK_EPOCH));

    let (recorded, finished) = reconcile(vec![dependabot_pull(12)], &[], true, &pending);

    assert!(finished.is_ok());
    assert_eq!(recorded.retained, Some(vec![12]));
    assert_eq!(recorded.retained_under, Some(CLOCK_EPOCH));
    let drain = recorded.drain.unwrap();
    assert_eq!(
        drain.closes,
        vec![
            (PrKey::new(7, 3), fenced(CLOCK_EPOCH)),
            (PrKey::new(7, 9), fenced(CLOCK_EPOCH)),
        ]
    );
    assert_eq!(drain.acknowledge, Some(2));
}

#[test]
fn one_repositorys_drain_also_retires_what_another_repositorys_sweep_pruned() {
    let pending = vec![
        retirement(4, PrKey::new(8, 1), Some(CLOCK_EPOCH - 3_600)),
        retirement(5, PrKey::new(7, 3), Some(CLOCK_EPOCH)),
    ];

    let (recorded, finished) = reconcile(vec![dependabot_pull(12)], &[], true, &pending);

    assert_eq!(finished, Ok(1));
    let drain = recorded.drain.unwrap();
    assert_eq!(
        drain.closes,
        vec![
            (PrKey::new(8, 1), fenced(CLOCK_EPOCH - 3_600)),
            (PrKey::new(7, 3), fenced(CLOCK_EPOCH)),
        ]
    );
    assert_eq!(drain.acknowledge, Some(5), "the whole outbox is emptied");
}

fn failed_sync_does_not_stop_the_sweep() {
    let pending = queued(&[PrKey::new(7, 5)], Some(900));

    let (recorded, finished) = reconcile(
        vec![dependabot_pull(12), dependabot_pull(19), dependabot_pull(23)],
        &[19],
        true,
        &pending,
    );

    assert_eq!(
        recorded.synced,
        vec![PrKey::new(7, 12), PrKey::new(7, 19), PrKey::new(7, 23)]
    );
    assert_eq!(
        recorded.retained,
        Some(vec![12, 19, 23]),
        "the failed pull request is still open, so its row must survive"
    );
    assert_eq!(recorded.drain.unwrap().closes, vec![(PrKey::new(7, 5), fenced(900))]);
    assert!(finished.is_err(), "the failed sync stays visible");
}

#[test]
fn repo_sync_a_failed_pull_request_sync_does_not_stop_the_sweep_or_the_cleanup() {
    failed_sync_does_not_stop_the_sweep();
}

#[test]
fn main_a_failed_pull_request_sync_does_not_stop_the_sweep_or_the_cleanup() {
    failed_sync_does_not_stop_the_sweep();
}

#[test]
fn a_failed_retain_retires_nothing() {
    let pending = queued(&[PrKey::new(7, 3)], Some(900));

    let (recorded, finished) = reconcile(vec![dependabot_pull(12)], &[], false, &pending);

    assert!(finished.is_err());
    assert_eq!(recorded.drain, None, "a drain follows a prune, and only a prune");
}

fn aggregate_failure_names_every_failed_pull_request() {
    let (_, finished) = reconcile(
        vec![dependabot_pull(12), dependabot_pull(19), dependabot_pull(23)],
        &[12, 23],
        true,
        &Vec::new(),
    );

    assert_eq!(
        finished,
        Err(Fault::Terminal(
            "2 of 3 pull request syncs failed while reconciling repository 7: 7#12, 7#23"
                .to_owned()
        ))
    );
}

#[test]
fn repo_sync_the_aggregate_failure_is_terminal_and_names_every_failed_pull_request() {
    aggregate_failure_names_every_failed_pull_request();
}

#[test]
fn main_the_aggregate_failure_is_terminal_and_names_every_failed_pull_request() {
    aggregate_failure_names_every_failed_pull_request();
}

fn clean_sweep_retains_what_was_listed() {
    let (recorded, finished) = reconcile(
        vec![dependabot_pull(12), dependabot_pull(19)],
        &[],
        true,
        &Vec::new(),
    );

    assert_eq!(finished, Ok(2));
    assert_eq!(reconcile_outcome(2), "synced 2 pull requests");
    assert_eq!(recorded.synced, vec![PrKey::new(7, 12), PrKey::new(7, 19)]);
    assert_eq!(recorded.retained, Some(vec![12, 19]));
}

#[test]
fn repo_sync_a_clean_sweep_retains_exactly_the_listed_pull_requests() {
    clean_sweep_retains_what_was_listed();
}

#[test]
fn main_a_clean_sweep_retains_exactly_the_listed_pull_requests() {
    clean_sweep_retains_what_was_listed();
}

fn empty_listing_still_prunes() {
    let (recorded, finished) = reconcile(Vec::new(), &[], true, &Vec::new());

    assert_eq!(finished, Ok(0));
    assert_eq!(recorded.retained, Some(vec![]));
}

#[test]
fn repo_sync_an_empty_listing_still_prunes_the_projection() {
    empty_listing_still_prunes();
}

#[test]
fn main_an_empty_listing_still_prunes_the_projection() {
    empty_listing_still_prunes();
}

#[test]
fn every_pending_retirement_is_closed_under_its_own_fence_and_then_acknowledged() {
    let drain = retire_pending(
        a_prune(),
        &vec![
            retirement(3, PrKey::new(7, 3), Some(900)),
            retirement(4, PrKey::new(8, 1), None),
            retirement(9, PrKey::new(7, 9), Some(1_000)),
        ],
    );

    assert_eq!(drain.told(), 3);
    assert_eq!(
        drain.closes,
        vec![
            (PrKey::new(7, 3), fenced(900)),
            (PrKey::new(8, 1), ClosedRequest::default()),
            (PrKey::new(7, 9), fenced(1_000)),
        ]
    );
    assert_eq!(drain.acknowledge, Some(9));
}

#[test]
fn an_empty_outbox_acknowledges_nothing() {
    let drain = retire_pending(a_prune(), &Vec::new());

    assert_eq!(drain.told(), 0);
    assert!(drain.closes.is_empty());
    assert_eq!(drain.acknowledge, None);
}

/// What a purge asked for.
#[derive(Default)]
struct RecordedPurge {
    held: Option<SchedulerState>,
    purged: Option<u64>,
    drain: Option<Drain>,
}

/// Purges the installation an object's key names: the drain follows the purge, if it lands.
fn run_purge(
    recorded: &mut RecordedPurge,
    state: SchedulerState,
    key: &str,
    lands: bool,
    pending: &Vec<Retirement>,
) -> Result<String, Fault> {
    let pause = begin_purge(state)?;
    recorded.held = Some(pause.state);
    let purge = pause.held(key)?;
    recorded.purged = Some(purge.installation_id);
    if !lands {
        return Err(read_only());
    }
    let (pruned, finish) = purge.landed();
    let drain = retire_pending(pruned, pending);
    recorded.drain = Some(retire_pending(a_prune(), pending));
    Ok(finish.finish(drain.through()))
}

#[test]
fn a_purge_retires_the_durable_state_of_every_pull_request_it_removed() {
    let mut recorded = RecordedPurge::default();
    let pending = queued(&[PrKey::new(7, 3), PrKey::new(7, 9), PrKey::new(8, 1)], None);

    let line = run_purge(&mut recorded, SchedulerState::armed(42), "1", true, &pending);

    assert_eq!(line, Ok("retired 3 pull requests".to_owned()));
    assert_eq!(recorded.purged, Some(1));
    let drain = recorded.drain.unwrap();
    assert_eq!(
        drain.closes,
        vec![
            (PrKey::new(7, 3), ClosedRequest::default()),
            (PrKey::new(7, 9), ClosedRequest::default()),
            (PrKey::new(8, 1), ClosedRequest::default()),
        ]
    );
    assert_eq!(drain.acknowledge, Some(3));
}

#[test]
fn a_purge_ends_the_chain_before_it_reads_its_key() {
    let mut recorded = RecordedPurge::default();

    let line = run_purge(&mut recorded, SchedulerState::armed(42), "one", true, &Vec::new());

    assert_eq!(
        line,
        Err(Fault::Terminal("installation key must be an integer".to_owned()))
    );
    assert_eq!(
        recorded.held,
        Some(SchedulerState { started: false, tick_pending: false, generation: 43 })
    );
    assert_eq!(recorded.purged, None);

    let spent = SchedulerState { started: true, tick_pending: true, generation: u64::MAX };
    assert_eq!(
        begin_purge(spent),
        Err(Fault::Terminal("scheduler generation overflow".to_owned()))
    );
}

#[test]
fn a_failed_purge_retires_nothing() {
    let mut recorded = RecordedPurge::default();
    let pending = queued(&[PrKey::new(7, 3)], None);

    let outcome = run_purge(&mut recorded, SchedulerState::armed(42), "1", false, &pending);

    assert_eq!(outcome, Err(read_only()), "the failed purge stays visible");
    assert_eq!(recorded.purged, Some(1));
    assert_eq!(recorded.drain, None, "the projection still holds the rows");
}

fn installed_repository(repository_id: u64) -> RepoRecord {
    RepoRecord {
        repository_id,
        installation_id: 1,
        owner: "acme".to_owned(),
        repo: format!("repo-{repository_id}"),
        merge_method: None,
        synced_at: 0,
    }
}

/// What an installation's sweep asked for.
#[derive(Default)]
struct RecordedSweep {
    replaced: Option<(u64, Vec<u64>, u64)>,
    drain: Option<Drain>,
    reconciled: Vec<String>,
}

fn run_sweep(
    recorded: &mut RecordedSweep,
    listing: Settled<Vec<RepoRecord>>,
    replace_lands: bool,
    pending: &Vec<Retirement>,
) -> Result<InstallationSweep, Fault> {
    let replace = FencedInstallationSweep { installation_id: 1, fence: 1_000 }.listed(listing)?;
    recorded.replaced = Some((
        replace.installation_id,
        replace.repositories.iter().map(|repository| repository.repository_id).collect(),
        replace.synced_before,
    ));
    if !replace_lands {
        return Err(read_only());
    }
    let (pruned, fan_out) = replace.landed();
    let drain = retire_pending(pruned, pending);
    recorded.drain = Some(retire_pending(a_prune(), pending));
    let sweep = fan_out.drained(drain.through());
    recorded.reconciled = (0..sweep.count()).map(|at| sweep.object_key(at)).collect();
    Ok(sweep)
}

#[test]
fn a_sweep_retires_every_pull_request_that_left_with_its_repository_under_the_sweeps_fence() {
    let mut recorded = RecordedSweep::default();
    let pending = queued(
        &[PrKey::new(8, 1), PrKey::new(8, 4), PrKey::new(12, 2)],
        Some(1_000),
    );

    let sweep = run_sweep(
        &mut recorded,
        Settled::Done(vec![installed_repository(7), installed_repository(9)]),
        true,
        &pending,
    )
    .unwrap();

    assert_eq!(sweep.count(), 2);
    assert_eq!(sweep.outcome(), "fanned out to 2 repositories");
    assert_eq!(
        recorded.replaced,
        Some((1, vec![7, 9], 1_000)),
        "the listing is the installation's authoritative repository set"
    );
    let drain = recorded.drain.unwrap();
    assert_eq!(
        drain.closes,
        vec![
            (PrKey::new(8, 1), fenced(1_000)),
            (PrKey::new(8, 4), fenced(1_000)),
            (PrKey::new(12, 2), fenced(1_000)),
        ]
    );
    assert_eq!(drain.acknowledge, Some(3));
    assert_eq!(recorded.reconciled, vec!["7", "9"]);
}

#[test]
fn a_failed_replace_retires_nothing_and_reconciles_nothing() {
    let mut recorded = RecordedSweep::default();
    let pending = queued(&[PrKey::new(8, 1)], Some(1_000));

    let outcome = run_sweep(
        &mut recorded,
        Settled::Done(vec![installed_repository(7)]),
        false,
        &pending,
    );

    assert_eq!(outcome, Err(read_only()), "the failed replace stays visible");
    assert_eq!(recorded.drain, None, "the projection still holds the rows");
    assert!(
        recorded.reconciled.is_empty(),
        "repositories are reconciled only once their rows are in place"
    );
}

#[test]
fn a_failed_listing_never_reaches_the_projection() {
    let mut recorded = RecordedSweep::default();
    let pending = queued(&[PrKey::new(8, 1)], Some(1_000));

    let outcome = run_sweep(&mut recorded, bad_credentials(), true, &pending);

    assert_eq!(
        outcome,
        Err(Fault::Terminal("GitHub read failed with HTTP 401: Bad credentials".to_owned()))
    );
    assert_eq!(recorded.replaced, None, "an unknown live set must not delete anything");
    assert_eq!(recorded.drain, None);
    assert!(recorded.reconciled.is_empty());
}
