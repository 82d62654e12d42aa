//! The sweeps that keep the projection true to GitHub: an installation's over its
//! repositories, a repository's over its pull requests, and a commit's over the pull
//! requests at it.
//!
//! A sweep is a chain of values, as a pull request's handlers are, and so is a purge. Each value
//! is made of the one before it: followed from its start, a chain asks for a prune only with a
//! complete listing under a fence read before it, for a drain only after a prune, and ends only
//! after the drain. The values are plain, so it is for the caller to follow the chain. A call
//! that fails ends it where it stands.

use vstd::multiset::Multiset;
use vstd::prelude::*;

use crate::fault::{terminal, Fault};
use crate::github::{http_failure, read_result, Settled};
use crate::model::{request_key, PrKey, PrRecord, RepoRecord, SyncRequest, SyncShaRequest};
use crate::projection::{
    law_a_listing_spares_what_it_names_and_what_was_synced_since, stale_pull, Tables,
};
use crate::retirement::{Drained, Pruned};
use crate::scheduler::{
    begin_tick, installation_key, runs_once, scheduler_pause_transition, SchedulerState,
    SchedulerTick, TickStart,
};
use crate::text::{
    all_said, decimal, decimal_text, join_texts, joined, short_sha, spec_parse_u64,
    spec_short_sha,
};

verus! {

/// What a listing came to: GitHub's answer, or the failure of one that is none. An unknown set
/// must not become the authoritative one.
pub open spec fn listing_failed<T, S>(listing: Settled<T>, result: Result<S, Fault>) -> bool {
    match listing {
        Settled::Done(_) => false,
        Settled::Rejected { reason, .. } => terminal(result, reason.spec_text()),
        Settled::Fatal { response } => terminal(
            result,
            http_failure("GitHub read failed with HTTP "@, response),
        ),
        Settled::StaleSha { .. } => terminal(
            result,
            "unexpected stale SHA while reading GitHub"@,
        ),
    }
}

/// An installation's sweep under a fence, which is read before the listing is asked for.
#[derive(Debug, PartialEq, Eq)]
pub struct FencedInstallationSweep {
    pub installation_id: u64,
    pub fence: u64,
}

impl FencedInstallationSweep {
    /// Goes on with the complete listing of the installation's repositories; without one the
    /// sweep ends, and nothing is dropped.
    pub fn listed(self, listing: Settled<Vec<RepoRecord>>) -> (sweep: Result<
        InstallationReplace,
        Fault,
    >)
        ensures
            match listing {
                Settled::Done(repositories) => sweep == Ok::<InstallationReplace, Fault>(
                    InstallationReplace {
                        installation_id: self.installation_id,
                        synced_before: self.fence,
                        repositories,
                    },
                ),
                _ => listing_failed(listing, sweep),
            },
    {
        match read_result(listing) {
            Ok(repositories) => Ok(
                InstallationReplace {
                    installation_id: self.installation_id,
                    synced_before: self.fence,
                    repositories,
                },
            ),
            Err(fault) => Err(fault),
        }
    }
}

/// The next thing an installation's sweep asks for: make the listing the installation's
/// repositories in the projection, dropping those that left and were not synced since.
#[derive(Debug, PartialEq, Eq)]
pub struct InstallationReplace {
    pub installation_id: u64,
    pub synced_before: u64,
    pub repositories: Vec<RepoRecord>,
}

impl InstallationReplace {
    /// The projection has the listing: the pull requests that left with a repository are owed
    /// a drain, and after it the repositories are swept.
    pub fn landed(self) -> (owed: (Pruned, InstallationFanOut))
        ensures
            owed.1.repositories == self.repositories,
    {
        (Pruned::landed(), InstallationFanOut { repositories: self.repositories })
    }
}

/// The repositories of a sweep, waiting for the drain.
#[derive(Debug, PartialEq, Eq)]
pub struct InstallationFanOut {
    pub repositories: Vec<RepoRecord>,
}

impl InstallationFanOut {
    /// With the drain through, each repository is swept.
    pub fn drained(self, drained: Drained) -> (sweep: InstallationSweep)
        ensures
            sweep.repositories == self.repositories,
    {
        InstallationSweep { repositories: self.repositories }
    }
}

/// An installation's sweep at its end: every repository listed is to be swept, each by its own
/// object.
#[derive(Debug, PartialEq, Eq)]
pub struct InstallationSweep {
    pub repositories: Vec<RepoRecord>,
}

impl InstallationSweep {
    /// How many repositories the sweep fans out to.
    pub fn count(&self) -> (count: usize)
        ensures
            count == self.repositories.len(),
    {
        self.repositories.len()
    }

    /// The key of the object that sweeps the repository at a place in the listing.
    pub fn object_key(&self, at: usize) -> (key: String)
        requires
            at < self.repositories.len(),
        ensures
            key@ == decimal(self.repositories[at as int].repository_id as nat),
    {
        decimal_text(self.repositories[at].repository_id)
    }

    /// The line a sweep asked for by hand is logged with.
    pub fn outcome(&self) -> (line: String)
        ensures
            line@ == "fanned out to "@ + decimal(self.repositories@.len()) + " repositories"@,
    {
        let mut line = "fanned out to ".to_owned();
        line.append(decimal_text(self.repositories.len() as u64).as_str());
        line.append(" repositories");
        line
    }
}

/// The first thing a purge asks for: hold this state, in which the chain of ticks has ended.
#[derive(Debug, PartialEq, Eq)]
pub struct PurgePause {
    pub state: SchedulerState,
}

/// Begins an installation's purge by ending its chain of ticks.
pub fn begin_purge(state: SchedulerState) -> (pause: Result<PurgePause, Fault>)
    ensures
        if state.generation < u64::MAX {
            pause == Ok::<PurgePause, Fault>(
                PurgePause {
                    state: SchedulerState {
                        started: false,
                        tick_pending: false,
                        generation: (state.generation + 1) as u64,
                    },
                },
            )
        } else {
            terminal(pause, "scheduler generation overflow"@)
        },
{
    match scheduler_pause_transition(state) {
        Ok(state) => Ok(PurgePause { state }),
        Err(fault) => Err(fault),
    }
}

impl PurgePause {
    /// With the state held, goes on with the installation the object's key names.
    pub fn held(self, key: &str) -> (purge: Result<InstallationPurge, Fault>)
        ensures
            match spec_parse_u64(key@) {
                Some(installation_id) => purge == Ok::<InstallationPurge, Fault>(
                    InstallationPurge { installation_id },
                ),
                None => terminal(purge, "installation key must be an integer"@),
            },
    {
        match installation_key(key) {
            Ok(installation_id) => Ok(InstallationPurge { installation_id }),
            Err(fault) => Err(fault),
        }
    }
}

/// The next thing a purge asks for: drop everything of the installation from the projection.
#[derive(Debug, PartialEq, Eq)]
pub struct InstallationPurge {
    pub installation_id: u64,
}

impl InstallationPurge {
    /// The projection has nothing of the installation: the pull requests that went are owed a
    /// drain, and after it the purge ends.
    pub fn landed(self) -> (owed: (Pruned, PurgeFinish))
        ensures
            owed.1.installation_id == self.installation_id,
    {
        (Pruned::landed(), PurgeFinish { installation_id: self.installation_id })
    }
}

/// A purge waiting for the drain.
#[derive(Debug, PartialEq, Eq)]
pub struct PurgeFinish {
    pub installation_id: u64,
}

impl PurgeFinish {
    /// The line the purge is logged with, with the drain through.
    pub fn finish(self, drained: Drained) -> (line: String)
        ensures
            line@ == "retired "@ + decimal(drained.told as nat) + " pull requests"@,
    {
        let mut line = "retired ".to_owned();
        line.append(decimal_text(drained.told as u64).as_str());
        line.append(" pull requests");
        line
    }
}

/// A purge ends the chain of ticks before anything else: none that is in flight is answered
/// from then on.
pub proof fn law_a_purge_ends_the_chain(
    state: SchedulerState,
    in_flight: Multiset<SchedulerTick>,
    pause: PurgePause,
    arrived: SchedulerTick,
    start: Result<TickStart, Fault>,
)
    requires
        runs_once(state, in_flight),
        call_ensures(begin_purge, (state,), Ok(pause)),
        in_flight.count(arrived) > 0,
        call_ensures(begin_tick, (pause.state, arrived), start),
    ensures
        runs_once(pause.state, in_flight),
        start == Ok::<TickStart, Fault>(TickStart::Drop),
{
    assert(in_flight.count(SchedulerTick { generation: Some(pause.state.generation) }) == 0);
}

/// A repository's sweep under a fence, which is read before the listing is asked for.
#[derive(Debug, PartialEq, Eq)]
pub struct FencedRepoSweep {
    pub repository_id: u64,
    pub fence: u64,
}

impl FencedRepoSweep {
    /// Goes on with the complete listing of the repository's pull requests; without one the
    /// sweep ends, and nothing is dropped.
    pub fn listed(self, listing: Settled<Vec<SyncRequest>>) -> (sweep: Result<
        RepoReconcile,
        Fault,
    >)
        ensures
            match listing {
                Settled::Done(pulls) => sweep matches Ok(sweep) && sweep.wf()
                    && sweep.repository_id == self.repository_id && sweep.fence == self.fence
                    && sweep.pulls == pulls && sweep.synced@ == Seq::<bool>::empty(),
                _ => listing_failed(listing, sweep),
            },
    {
        match read_result(listing) {
            Ok(pulls) => Ok(
                RepoReconcile {
                    repository_id: self.repository_id,
                    fence: self.fence,
                    pulls,
                    synced: Vec::new(),
                },
            ),
            Err(fault) => Err(fault),
        }
    }
}

/// A repository's sweep with its complete listing: every listed pull request is synced in
/// turn, and one that fails for good is remembered rather than ending the sweep.
#[derive(Debug, PartialEq, Eq)]
pub struct RepoReconcile {
    pub repository_id: u64,
    pub fence: u64,
    pub pulls: Vec<SyncRequest>,
    /// How each sync so far went.
    pub synced: Vec<bool>,
}

/// The keys of the pull requests whose syncs failed, in listing order.
pub open spec fn failed_keys(pulls: Seq<SyncRequest>, synced: Seq<bool>) -> Seq<PrKey>
    decreases synced.len(),
{
    if synced.len() == 0 {
        Seq::empty()
    } else {
        let earlier = failed_keys(pulls, synced.drop_last());
        if synced.last() {
            earlier
        } else {
            earlier.push(pulls[synced.len() - 1].spec_key())
        }
    }
}

pub open spec fn key_texts(keys: Seq<PrKey>) -> Seq<Seq<char>> {
    keys.map_values(|key: PrKey| key.spec_text())
}

pub open spec fn numbers_of(pulls: Seq<SyncRequest>) -> Seq<u64> {
    pulls.map_values(|pull: SyncRequest| pull.number)
}

impl RepoReconcile {
    pub open spec fn wf(self) -> bool {
        self.synced.len() <= self.pulls.len()
    }

    /// Every listed pull request has been synced, well or not.
    pub open spec fn swept(self) -> bool {
        self.synced.len() == self.pulls.len()
    }

    /// The next pull request to sync, with the object it is to be sent to.
    pub fn next(&self) -> (next: Option<(PrKey, SyncRequest)>)
        requires
            self.wf(),
        ensures
            next is None <==> self.swept(),
            next matches Some((key, request)) ==> {
                &&& request == self.pulls[self.synced.len() as int]
                &&& key == request.spec_key()
            },
    {
        if self.synced.len() == self.pulls.len() {
            return None;
        }
        let request = self.pulls[self.synced.len()].clone();
        Some((request_key(&request), request))
    }

    /// Notes how the sync of the next pull request went.
    pub fn note(&mut self, synced: bool)
        requires
            old(self).wf(),
            !old(self).swept(),
        ensures
            final(self).wf(),
            final(self).repository_id == old(self).repository_id,
            final(self).fence == old(self).fence,
            final(self).pulls == old(self).pulls,
            final(self).synced@ == old(self).synced@.push(synced),
    {
        self.synced.push(synced);
    }

    /// The pull requests that are live: all that were listed, the failed ones too.
    fn live(&self) -> (live: Vec<u64>)
        ensures
            live@ == numbers_of(self.pulls@),
    {
        let mut live: Vec<u64> = Vec::new();
        let mut i: usize = 0;
        while i < self.pulls.len()
            invariant
                i <= self.pulls.len(),
                live@ == numbers_of(self.pulls@.take(i as int)),
            decreases self.pulls.len() - i,
        {
            live.push(self.pulls[i].number);
            assert(numbers_of(self.pulls@.take(i + 1)) =~= numbers_of(
                self.pulls@.take(i as int),
            ).push(self.pulls[i as int].number));
            i += 1;
        }
        assert(self.pulls@.take(i as int) == self.pulls@);
        live
    }

    fn failures(&self) -> (failures: Vec<String>)
        requires
            self.wf(),
        ensures
            all_said(failures@) == key_texts(failed_keys(self.pulls@, self.synced@)),
    {
        let mut failures: Vec<String> = Vec::new();
        let mut i: usize = 0;
        assert(all_said(failures@) =~= key_texts(
            failed_keys(self.pulls@, self.synced@.take(0)),
        ));
        while i < self.synced.len()
            invariant
                self.wf(),
                i <= self.synced.len(),
                all_said(failures@) == key_texts(
                    failed_keys(self.pulls@, self.synced@.take(i as int)),
                ),
            decreases self.synced.len() - i,
        {
            let ghost before = failures@;
            let ghost next = self.synced@.take(i + 1);
            assert(next.drop_last() == self.synced@.take(i as int));
            if !self.synced[i] {
                let key = request_key(&self.pulls[i]);
                failures.push(key.text());
                assert(all_said(failures@) =~= all_said(before).push(key.spec_text()));
                assert(key_texts(failed_keys(self.pulls@, next)) =~= key_texts(
                    failed_keys(self.pulls@, next.drop_last()),
                ).push(key.spec_text()));
            }
            i += 1;
        }
        assert(self.synced@.take(i as int) == self.synced@);
        failures
    }

    /// With every listed pull request synced, well or not, the projection is pruned down to
    /// the listing.
    pub fn prune(self) -> (prune: RepoPrune)
        requires
            self.wf(),
            self.swept(),
        ensures
            prune.wf(),
            prune.sweep == self,
    {
        let live = self.live();
        RepoPrune {
            repository_id: self.repository_id,
            synced_before: self.fence,
            live,
            sweep: self,
        }
    }
}

/// The next thing a repository's sweep asks for: drop the repository's rows that are not live
/// and were not synced since the fence.
#[derive(Debug, PartialEq, Eq)]
pub struct RepoPrune {
    pub repository_id: u64,
    pub synced_before: u64,
    pub live: Vec<u64>,
    /// How the syncs went.
    pub sweep: RepoReconcile,
}

impl RepoPrune {
    pub open spec fn wf(self) -> bool {
        &&& self.sweep.wf()
        &&& self.sweep.swept()
        &&& self.repository_id == self.sweep.repository_id
        &&& self.synced_before == self.sweep.fence
        &&& self.live@ == numbers_of(self.sweep.pulls@)
    }

    /// The prune is in: what it removed is owed a drain, and after it the sweep ends.
    pub fn landed(self) -> (owed: (Pruned, RepoFinish))
        requires
            self.wf(),
        ensures
            owed.1.wf(),
            owed.1.sweep == self.sweep,
    {
        (Pruned::landed(), RepoFinish { sweep: self.sweep })
    }
}

/// A repository's sweep waiting for the drain.
#[derive(Debug, PartialEq, Eq)]
pub struct RepoFinish {
    pub sweep: RepoReconcile,
}

impl RepoFinish {
    pub open spec fn wf(self) -> bool {
        self.sweep.wf() && self.sweep.swept()
    }

    /// How the sweep ends with the drain through: with how many pull requests synced, or
    /// naming every one that did not.
    pub fn finish(self, drained: Drained) -> (finished: Result<usize, Fault>)
        requires
            self.wf(),
        ensures
            ({
                let failed = failed_keys(self.sweep.pulls@, self.sweep.synced@);
                if failed.len() == 0 {
                    finished == Ok::<usize, Fault>(self.sweep.pulls.len())
                } else {
                    terminal(
                        finished,
                        decimal(failed.len()) + " of "@ + decimal(self.sweep.pulls@.len())
                            + " pull request syncs failed while reconciling repository "@ + decimal(
                            self.sweep.repository_id as nat,
                        ) + ": "@ + joined(key_texts(failed)),
                    )
                }
            }),
    {
        let failures = self.sweep.failures();
        assert(failures.len() == failed_keys(self.sweep.pulls@, self.sweep.synced@).len()) by {
            assert(all_said(failures@).len() == failures.len());
        }
        if failures.len() == 0 {
            return Ok(self.sweep.pulls.len());
        }
        let mut message = decimal_text(failures.len() as u64);
        message.append(" of ");
        message.append(decimal_text(self.sweep.pulls.len() as u64).as_str());
        message.append(" pull request syncs failed while reconciling repository ");
        message.append(decimal_text(self.sweep.repository_id).as_str());
        message.append(": ");
        message.append(join_texts(&failures).as_str());
        Err(Fault::Terminal(message))
    }
}

/// A pull request that was listed keeps its row through the sweep's prune, whether or not its
/// own sync went well.
pub proof fn law_a_listed_pull_request_keeps_its_row(
    prune: RepoPrune,
    before: Tables,
    after: Tables,
    keys: Seq<PrKey>,
    row: PrRecord,
    listed: int,
)
    requires
        prune.wf(),
        after.pruned(
            before,
            stale_pull(prune.repository_id, prune.live@, prune.synced_before),
            Some(prune.synced_before),
            keys,
        ),
        before.pull_requests@.contains(row),
        0 <= listed < prune.sweep.pulls.len(),
        prune.sweep.pulls[listed].number == row.number,
    ensures
        after.pull_requests@.contains(row),
{
    assert(prune.live@[listed] == row.number);
    law_a_listing_spares_what_it_names_and_what_was_synced_since(
        before,
        after,
        prune.repository_id,
        prune.live@,
        prune.synced_before,
        keys,
        row,
    );
}

/// A row written while the listing was in flight outlives the sweep: it was synced at or after
/// the fence, which was read before the listing was asked for.
pub proof fn law_a_row_written_during_the_listing_is_spared(
    fenced: FencedRepoSweep,
    listing: Settled<Vec<SyncRequest>>,
    sweep: RepoReconcile,
    prune: RepoPrune,
    before: Tables,
    after: Tables,
    keys: Seq<PrKey>,
    row: PrRecord,
)
    requires
        call_ensures(FencedRepoSweep::listed, (fenced, listing), Ok(sweep)),
        prune.wf(),
        prune.repository_id == sweep.repository_id,
        prune.synced_before == sweep.fence,
        after.pruned(
            before,
            stale_pull(prune.repository_id, prune.live@, prune.synced_before),
            Some(prune.synced_before),
            keys,
        ),
        before.pull_requests@.contains(row),
        row.synced_at >= fenced.fence,
    ensures
        after.pull_requests@.contains(row),
{
    law_a_listing_spares_what_it_names_and_what_was_synced_since(
        before,
        after,
        prune.repository_id,
        prune.live@,
        prune.synced_before,
        keys,
        row,
    );
}

/// The line a repository's sweep is logged with.
pub fn reconcile_outcome(pull_requests: usize) -> (line: String)
    ensures
        line@ == "synced "@ + decimal(pull_requests as nat) + " pull requests"@,
{
    let mut line = "synced ".to_owned();
    line.append(decimal_text(pull_requests as u64).as_str());
    line.append(" pull requests");
    line
}

pub open spec fn strictly_ascending(numbers: Seq<u64>) -> bool {
    forall|i: int, j: int| 0 <= i < j < numbers.len() ==> numbers[i] < numbers[j]
}

/// Some row has the number.
pub open spec fn has_number(rows: Seq<PrRecord>, number: u64) -> bool {
    exists|i: int| 0 <= i < rows.len() && (#[trigger] rows[i]).number == number
}

/// Puts a number among ascending ones, unless it is there.
fn insert_number(numbers: &mut Vec<u64>, number: u64)
    requires
        strictly_ascending(old(numbers)@),
    ensures
        strictly_ascending(final(numbers)@),
        forall|n: u64| final(numbers)@.contains(n) <==> old(numbers)@.contains(n) || n == number,
{
    let mut at: usize = 0;
    while at < numbers.len() && numbers[at] < number
        invariant
            numbers@ == old(numbers)@,
            strictly_ascending(numbers@),
            at <= numbers.len(),
            forall|i: int| 0 <= i < at ==> numbers[i] < number,
        decreases numbers.len() - at,
    {
        at += 1;
    }
    let ghost before = numbers@;
    if at < numbers.len() && numbers[at] == number {
        assert(before[at as int] == number);
        return;
    }
    numbers.insert(at, number);
    proof {
        let after = numbers@;
        assert(after == before.insert(at as int, number));
        assert forall|n: u64| after.contains(n) <==> before.contains(n) || n == number by {
            if before.contains(n) {
                let i = choose|i: int| 0 <= i < before.len() && before[i] == n;
                assert(after[if i < at {
                    i
                } else {
                    i + 1
                }] == n);
            }
            if n == number {
                assert(after[at as int] == n);
            }
            if after.contains(n) {
                let i = choose|i: int| 0 <= i < after.len() && after[i] == n;
                if i != at {
                    assert(before[if i < at {
                        i
                    } else {
                        i - 1
                    }] == n);
                }
            }
        }
    }
}

/// The pull requests at a commit: those the delivery named and those the projection has at
/// that head, each once, in ascending order.
pub fn pull_requests_at(named: &Vec<u64>, at_head: &Vec<PrRecord>) -> (numbers: Vec<u64>)
    ensures
        strictly_ascending(numbers@),
        forall|n: u64|
            #[trigger] numbers@.contains(n) <==> named@.contains(n) || has_number(at_head@, n),
{
    let mut numbers: Vec<u64> = Vec::new();
    let mut i: usize = 0;
    while i < named.len()
        invariant
            i <= named.len(),
            strictly_ascending(numbers@),
            forall|n: u64| numbers@.contains(n) <==> named@.take(i as int).contains(n),
        decreases named.len() - i,
    {
        let number: u64 = named[i];
        let ghost before = numbers@;
        insert_number(&mut numbers, number);
        proof {
            let seen = named@.take(i as int);
            let next = named@.take(i + 1);
            assert(next == seen.push(number));
            assert forall|n: u64| numbers@.contains(n) <==> next.contains(n) by {
                if seen.contains(n) {
                    let k = choose|k: int| 0 <= k < seen.len() && seen[k] == n;
                    assert(next[k] == n);
                }
                if n == number {
                    assert(next[i as int] == n);
                }
                if next.contains(n) {
                    let k = choose|k: int| 0 <= k < next.len() && next[k] == n;
                    if k < i {
                        assert(seen[k] == n);
                    }
                }
            }
        }
        i += 1;
    }
    assert(named@.take(i as int) == named@);
    let mut j: usize = 0;
    while j < at_head.len()
        invariant
            j <= at_head.len(),
            strictly_ascending(numbers@),
            forall|n: u64|
                numbers@.contains(n) <==> named@.contains(n) || has_number(
                    at_head@.take(j as int),
                    n,
                ),
        decreases at_head.len() - j,
    {
        let number: u64 = at_head[j].number;
        insert_number(&mut numbers, number);
        proof {
            let seen = at_head@.take(j as int);
            let next = at_head@.take(j + 1);
            assert forall|n: u64|
                numbers@.contains(n) <==> named@.contains(n) || has_number(next, n) by {
                if has_number(seen, n) {
                    let k = choose|k: int| 0 <= k < seen.len() && (#[trigger] seen[k]).number == n;
                    assert(next[k].number == n);
                }
                if n == number {
                    assert(next[j as int].number == n);
                }
                if has_number(next, n) {
                    let k = choose|k: int| 0 <= k < next.len() && (#[trigger] next[k]).number == n;
                    if k < j {
                        assert(seen[k].number == n);
                    }
                }
            }
        }
        j += 1;
    }
    assert(at_head@.take(j as int) == at_head@);
    numbers
}

/// The sync a status change asks for: it honours the debounce, and nobody waits for it.
pub open spec fn status_sync(request: SyncShaRequest, number: u64) -> SyncRequest {
    SyncRequest {
        repository_id: request.repository_id,
        owner: request.owner,
        repo: request.repo,
        number,
        bypass_debounce: false,
        completion_id: None,
    }
}

/// Fans a commit's status change out to the pull requests at that commit, one sync each.
pub fn sync_sha_requests(request: &SyncShaRequest, at_head: &Vec<PrRecord>) -> (syncs: Vec<
    SyncRequest,
>)
    ensures
        strictly_ascending(numbers_of(syncs@)),
        forall|n: u64|
            #[trigger] numbers_of(syncs@).contains(n) <==> request.pull_requests@.contains(n)
                || has_number(at_head@, n),
        forall|i: int|
            0 <= i < syncs.len() ==> #[trigger] syncs[i] == status_sync(*request, syncs[i].number),
{
    let numbers = pull_requests_at(&request.pull_requests, at_head);
    let mut syncs: Vec<SyncRequest> = Vec::new();
    let mut i: usize = 0;
    while i < numbers.len()
        invariant
            i <= numbers.len(),
            numbers_of(syncs@) == numbers@.take(i as int),
            forall|k: int|
                0 <= k < syncs.len() ==> #[trigger] syncs[k] == status_sync(
                    *request,
                    syncs[k].number,
                ),
        decreases numbers.len() - i,
    {
        let ghost before = syncs@;
        syncs.push(
            SyncRequest {
                repository_id: request.repository_id,
                owner: request.owner.clone(),
                repo: request.repo.clone(),
                number: numbers[i],
                bypass_debounce: false,
                completion_id: None,
            },
        );
        assert(numbers_of(syncs@) =~= numbers_of(before).push(numbers[i as int]));
        assert(numbers@.take(i + 1) =~= numbers@.take(i as int).push(numbers[i as int]));
        i += 1;
    }
    assert(numbers@.take(i as int) == numbers@);
    syncs
}

/// The line a commit's fan-out is logged with.
pub fn sync_sha_outcome(told: usize, sha: &str) -> (line: String)
    ensures
        line@ == "fanned out to "@ + decimal(told as nat) + " pull requests at "@ + spec_short_sha(
            sha@,
        ),
{
    let mut line = "fanned out to ".to_owned();
    line.append(decimal_text(told as u64).as_str());
    line.append(" pull requests at ");
    line.append(short_sha(sha));
    line
}

/// A sweep goes on only with GitHub's own listing, for its own installation or repository and
/// under its own fence; any other answer fails for good, and nothing is asked of the projection.
pub proof fn law_a_sweep_goes_on_only_with_a_listing(
    fenced: FencedInstallationSweep,
    repositories: Settled<Vec<RepoRecord>>,
    replace: Result<InstallationReplace, Fault>,
    fenced_repo: FencedRepoSweep,
    pulls: Settled<Vec<SyncRequest>>,
    sweep: Result<RepoReconcile, Fault>,
)
    requires
        call_ensures(FencedInstallationSweep::listed, (fenced, repositories), replace),
        call_ensures(FencedRepoSweep::listed, (fenced_repo, pulls), sweep),
    ensures
        repositories matches Settled::Done(listed) ==> {
            &&& replace matches Ok(replace)
            &&& replace.installation_id == fenced.installation_id
            &&& replace.synced_before == fenced.fence
            &&& replace.repositories == listed
        },
        repositories !is Done ==> replace is Err && replace->Err_0 is Terminal,
        repositories is StaleSha ==> replace->Err_0->Terminal_0@
            == "unexpected stale SHA while reading GitHub"@,
        repositories matches Settled::Fatal { response } ==> replace->Err_0->Terminal_0@
            == "GitHub read failed with HTTP "@ + decimal(response.status as nat) + ": "@
            + response.message@,
        pulls matches Settled::Done(listed) ==> {
            &&& sweep matches Ok(sweep)
            &&& sweep.repository_id == fenced_repo.repository_id
            &&& sweep.fence == fenced_repo.fence
            &&& sweep.pulls == listed
            &&& sweep.synced.len() == 0
        },
        pulls !is Done ==> sweep is Err && sweep->Err_0 is Terminal,
        pulls is StaleSha ==> sweep->Err_0->Terminal_0@
            == "unexpected stale SHA while reading GitHub"@,
        pulls matches Settled::Fatal { response } ==> sweep->Err_0->Terminal_0@
            == "GitHub read failed with HTTP "@ + decimal(response.status as nat) + ": "@
            + response.message@,
{
}

/// An installation's sweep fans out to every repository listed, in the listing's order, each by
/// the object that its own id keys.
pub proof fn law_a_sweep_fans_out_to_every_repository_listed(
    replace: InstallationReplace,
    owed: (Pruned, InstallationFanOut),
    drained: Drained,
    sweep: InstallationSweep,
    count: usize,
    at: usize,
    key: String,
    line: String,
)
    requires
        call_ensures(InstallationReplace::landed, (replace,), owed),
        call_ensures(InstallationFanOut::drained, (owed.1, drained), sweep),
        call_ensures(InstallationSweep::count, (&sweep,), count),
        at < sweep.repositories.len(),
        call_ensures(InstallationSweep::object_key, (&sweep, at), key),
        call_ensures(InstallationSweep::outcome, (&sweep,), line),
    ensures
        sweep.repositories == replace.repositories,
        count == replace.repositories.len(),
        key@ == decimal(replace.repositories[at as int].repository_id as nat),
        line@ == "fanned out to "@ + decimal(replace.repositories.len() as nat)
            + " repositories"@,
{
}

/// A purge pauses the chain, then drops the installation that the object's key names, and says
/// how many pull requests were retired.
pub proof fn law_what_a_purge_does(
    state: SchedulerState,
    pause: Result<PurgePause, Fault>,
    at: PurgePause,
    key: &str,
    number: Option<u64>,
    held: Result<InstallationPurge, Fault>,
    purge: InstallationPurge,
    owed: (Pruned, PurgeFinish),
    drained: Drained,
    line: String,
)
    requires
        call_ensures(begin_purge, (state,), pause),
        call_ensures(crate::text::parse_u64, (key,), number),
        call_ensures(PurgePause::held, (at, key), held),
        call_ensures(InstallationPurge::landed, (purge,), owed),
        call_ensures(PurgeFinish::finish, (owed.1, drained), line),
    ensures
        state.generation < u64::MAX ==> {
            &&& pause matches Ok(pause)
            &&& !pause.state.started && !pause.state.tick_pending && pause.state.generation
                == state.generation + 1
        },
        state.generation == u64::MAX ==> (pause matches Err(Fault::Terminal(message)) && message@
            == "scheduler generation overflow"@),
        number matches Some(id) ==> (held matches Ok(purge) && purge.installation_id == id),
        number is None ==> (held matches Err(Fault::Terminal(message)) && message@
            == "installation key must be an integer"@),
        owed.1.installation_id == purge.installation_id,
        line@ == "retired "@ + decimal(drained.told as nat) + " pull requests"@,
{
}

/// A repository's sweep syncs the listed pull requests in turn, each sent to the object of its
/// own repository and number, until all have been.
pub proof fn law_a_sweep_syncs_the_listed_in_turn(
    sweep: RepoReconcile,
    next: Option<(PrKey, SyncRequest)>,
)
    requires
        sweep.wf(),
        call_ensures(RepoReconcile::next, (&sweep,), next),
    ensures
        next is None <==> sweep.synced.len() == sweep.pulls.len(),
        next matches Some((key, request)) ==> {
            let listed = sweep.pulls[sweep.synced.len() as int];
            &&& request == listed
            &&& key.repository_id == listed.repository_id
            &&& key.number == listed.number
        },
{
}

/// The prune of a repository's sweep is of that repository, under the sweep's fence, and names
/// as live exactly the numbers listed, whether or not their syncs went well.
pub proof fn law_a_prune_names_what_was_listed(sweep: RepoReconcile, prune: RepoPrune)
    requires
        sweep.wf(),
        sweep.swept(),
        call_ensures(RepoReconcile::prune, (sweep,), prune),
    ensures
        prune.repository_id == sweep.repository_id,
        prune.synced_before == sweep.fence,
        prune.live.len() == sweep.pulls.len(),
        forall|i: int|
            0 <= i < sweep.pulls.len() ==> #[trigger] prune.live[i] == sweep.pulls[i].number,
{
    assert forall|i: int| 0 <= i < sweep.pulls.len() implies #[trigger] prune.live[i]
        == sweep.pulls[i].number by {
        assert(prune.live@[i] == numbers_of(sweep.pulls@)[i]);
    }
}

proof fn lemma_failed_at(
    pulls: Seq<SyncRequest>,
    synced: Seq<bool>,
    failed: spec_fn(bool) -> bool,
)
    requires
        synced.len() <= pulls.len(),
        forall|well: bool| #[trigger] failed(well) <==> !well,
    ensures
        failed_keys(pulls, synced).len() == synced.filter(failed).len(),
        failed_keys(pulls, synced).len() == 0 <==> forall|i: int|
            0 <= i < synced.len() ==> #[trigger] synced[i],
        forall|i: int|
            #![trigger synced[i]]
            0 <= i < synced.len() && !synced[i] ==> synced.take(i).filter(failed).len()
                < failed_keys(pulls, synced).len() && failed_keys(pulls, synced)[synced.take(
                i,
            ).filter(failed).len() as int] == pulls[i].spec_key(),
    decreases synced.len(),
{
    if synced.len() == 0 {
        assert(synced.filter(failed).len() == 0) by {
            reveal(Seq::filter);
        }
    } else {
        let shorter = synced.drop_last();
        let last = synced.len() - 1;
        lemma_failed_at(pulls, shorter, failed);
        assert(synced.filter(failed).len() == shorter.filter(failed).len() + (if synced.last() {
            0int
        } else {
            1
        })) by {
            reveal(Seq::filter);
            assert(failed(synced.last()) <==> !synced.last());
        }
        assert(synced.take(last) =~= shorter);
        assert forall|i: int|
            #![trigger synced[i]]
            0 <= i < synced.len() && !synced[i] implies synced.take(i).filter(failed).len()
            < failed_keys(pulls, synced).len() && failed_keys(pulls, synced)[synced.take(i).filter(
            failed,
        ).len() as int] == pulls[i].spec_key() by {
            if i < last {
                assert(shorter[i] == synced[i]);
                assert(shorter.take(i) =~= synced.take(i));
            }
        }
        if forall|i: int| 0 <= i < synced.len() ==> #[trigger] synced[i] {
            assert forall|i: int| 0 <= i < shorter.len() implies #[trigger] shorter[i] by {
                assert(synced[i]);
            }
            assert(synced[last]);
        }
        if failed_keys(pulls, synced).len() == 0 {
            assert forall|i: int| 0 <= i < synced.len() implies #[trigger] synced[i] by {
                if i < last {
                    assert(shorter[i]);
                }
            }
        }
    }
}

/// A repository's sweep ends well exactly where every sync went well, with how many there were.
/// Otherwise it fails for good, and says how many of how many failed and names each that did, in
/// the listing's order, by its repository and number.
pub proof fn law_a_sweep_names_every_sync_that_failed(
    finish: RepoFinish,
    drained: Drained,
    finished: Result<usize, Fault>,
    names: Vec<String>,
    listing: String,
)
    requires
        finish.wf(),
        call_ensures(RepoFinish::finish, (finish, drained), finished),
        names.len() == finish.sweep.synced@.filter(|well: bool| !well).len(),
        forall|i: int|
            #![trigger finish.sweep.synced@[i]]
            0 <= i < finish.sweep.synced@.len() && !finish.sweep.synced@[i]
                ==> names@[finish.sweep.synced@.take(i).filter(|well: bool| !well).len() as int]@
                == decimal(finish.sweep.pulls[i].repository_id as nat) + "#"@ + decimal(
                finish.sweep.pulls[i].number as nat,
            ),
        call_ensures(join_texts, (&names,), listing),
    ensures
        finished is Ok <==> forall|i: int|
            0 <= i < finish.sweep.synced@.len() ==> #[trigger] finish.sweep.synced@[i],
        finished matches Ok(synced) ==> synced == finish.sweep.pulls.len(),
        finished matches Err(fault) ==> (fault matches Fault::Terminal(message) && message@
            == decimal(finish.sweep.synced@.filter(|well: bool| !well).len()) + " of "@ + decimal(
            finish.sweep.pulls.len() as nat,
        ) + " pull request syncs failed while reconciling repository "@ + decimal(
            finish.sweep.repository_id as nat,
        ) + ": "@ + listing@),
{
    let pulls = finish.sweep.pulls@;
    let synced = finish.sweep.synced@;
    let failed = |well: bool| !well;
    lemma_failed_at(pulls, synced, failed);
    let keys = failed_keys(pulls, synced);
    let places = lemma_failed_places(pulls, synced, failed);
    assert(all_said(names@) =~= key_texts(keys)) by {
        assert forall|k: int| 0 <= k < keys.len() implies #[trigger] all_said(names@)[k]
            == key_texts(keys)[k] by {
            let i = places[k];
            assert(!synced[i]);
            assert(synced.take(i).filter(failed).len() == k);
            assert(names@[k]@ == decimal(pulls[i].repository_id as nat) + "#"@ + decimal(
                pulls[i].number as nat,
            ));
            assert(keys[k] == pulls[i].spec_key());
        }
    }
}

/// The place in the listing of each pull request whose sync failed.
proof fn lemma_failed_places(
    pulls: Seq<SyncRequest>,
    synced: Seq<bool>,
    failed: spec_fn(bool) -> bool,
) -> (places: Seq<int>)
    requires
        synced.len() <= pulls.len(),
        forall|well: bool| #[trigger] failed(well) <==> !well,
    ensures
        places.len() == failed_keys(pulls, synced).len(),
        forall|k: int|
            0 <= k < places.len() ==> 0 <= #[trigger] places[k] < synced.len()
                && !synced[places[k]] && synced.take(places[k]).filter(failed).len() == k,
    decreases synced.len(),
{
    if synced.len() == 0 {
        Seq::empty()
    } else {
        let shorter = synced.drop_last();
        let last = synced.len() - 1;
        let before = lemma_failed_places(pulls, shorter, failed);
        lemma_failed_at(pulls, shorter, failed);
        assert(synced.take(last) =~= shorter);
        assert forall|k: int| 0 <= k < before.len() implies synced.take(#[trigger] before[k])
            =~= shorter.take(before[k]) by {}
        if synced.last() {
            before
        } else {
            before.push(last)
        }
    }
}

/// A commit's status change goes once to each pull request at the commit, those the delivery
/// named and those the projection has at that head, in order of their numbers: a sync in the
/// commit's own repository that honours the debounce and that nobody waits for.
pub proof fn law_a_status_change_goes_to_each_pull_request_once(
    request: SyncShaRequest,
    at_head: Vec<PrRecord>,
    syncs: Vec<SyncRequest>,
)
    requires
        call_ensures(sync_sha_requests, (&request, &at_head), syncs),
    ensures
        forall|i: int|
            #![trigger syncs[i]]
            0 <= i < syncs.len() ==> {
                &&& syncs[i].repository_id == request.repository_id
                &&& syncs[i].owner == request.owner
                &&& syncs[i].repo == request.repo
                &&& !syncs[i].bypass_debounce
                &&& syncs[i].completion_id is None
                &&& request.pull_requests@.contains(syncs[i].number) || exists|k: int|
                    0 <= k < at_head.len() && (#[trigger] at_head[k]).number == syncs[i].number
            },
        forall|i: int, j: int|
            0 <= i < j < syncs.len() ==> (#[trigger] syncs[i]).number < (#[trigger] syncs[j]).number,
        forall|number: u64| #[trigger]
            request.pull_requests@.contains(number) ==> exists|i: int|
                0 <= i < syncs.len() && (#[trigger] syncs[i]).number == number,
        forall|row: PrRecord| #[trigger]
            at_head@.contains(row) ==> exists|i: int|
                0 <= i < syncs.len() && (#[trigger] syncs[i]).number == row.number,
{
    let numbers = numbers_of(syncs@);
    assert forall|i: int|
        #![trigger syncs[i]]
        0 <= i < syncs.len() implies syncs[i] == status_sync(request, syncs[i].number) && (
    request.pull_requests@.contains(syncs[i].number) || exists|k: int|
        0 <= k < at_head.len() && (#[trigger] at_head[k]).number == syncs[i].number) by {
        assert(numbers[i] == syncs[i].number);
        assert(numbers.contains(syncs[i].number));
        if has_number(at_head@, syncs[i].number) {
            let k = choose|k: int|
                0 <= k < at_head@.len() && (#[trigger] at_head@[k]).number == syncs[i].number;
            assert(at_head[k].number == syncs[i].number);
        }
    }
    assert forall|i: int, j: int| 0 <= i < j < syncs.len() implies (#[trigger] syncs[i]).number < (
    #[trigger] syncs[j]).number by {
        assert(numbers[i] < numbers[j]);
    }
    assert forall|number: u64| #[trigger] request.pull_requests@.contains(number) implies exists|
        i: int,
    |
        0 <= i < syncs.len() && (#[trigger] syncs[i]).number == number by {
        assert(numbers.contains(number));
        let i = choose|i: int| 0 <= i < numbers.len() && numbers[i] == number;
        assert(syncs[i].number == number);
    }
    assert forall|row: PrRecord| #[trigger] at_head@.contains(row) implies exists|i: int|
        0 <= i < syncs.len() && (#[trigger] syncs[i]).number == row.number by {
        let k = choose|k: int| 0 <= k < at_head@.len() && at_head@[k] == row;
        assert(at_head@[k].number == row.number);
        assert(has_number(at_head@, row.number));
        assert(numbers.contains(row.number));
        let i = choose|i: int| 0 <= i < numbers.len() && numbers[i] == row.number;
        assert(syncs[i].number == row.number);
    }
}

/// The lines that a repository's sweep and a commit's fan-out are logged with.
pub proof fn law_what_the_sweeps_say(
    pull_requests: usize,
    sha: &str,
    short: &str,
    reconciled: String,
    fanned_out: String,
)
    requires
        call_ensures(short_sha, (sha,), short),
        call_ensures(reconcile_outcome, (pull_requests,), reconciled),
        call_ensures(sync_sha_outcome, (pull_requests, sha), fanned_out),
    ensures
        reconciled@ == "synced "@ + decimal(pull_requests as nat) + " pull requests"@,
        fanned_out@ == "fanned out to "@ + decimal(pull_requests as nat) + " pull requests at "@
            + short@,
{
}

} // verus!
