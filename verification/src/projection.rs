//! The projection held in memory: pull request and repository rows, batches, and the outbox
//! of retirements, under the constraints a database would enforce.
//!
//! A pull request needs its repository's row first; deleting a repository takes its pull
//! requests with it; a pull request reads back with its repository's installation; a batch
//! recorded twice keeps its first record, and recording it ends its running listing; and
//! every prune queues the keys it removed for retirement under its fence.

use vstd::prelude::*;

use crate::model::{PrKey, PrRecord, RepoRecord, Retirement};
use crate::progress::{BatchRecord, RunningBatch};
use crate::text::same_text;

verus! {

/// The order of keys: by repository, then by number.
pub open spec fn key_before(left: PrKey, right: PrKey) -> bool {
    left.repository_id < right.repository_id || (left.repository_id == right.repository_id
        && left.number < right.number)
}

fn is_key_before(left: PrKey, right: PrKey) -> (before: bool)
    ensures
        before == key_before(left, right),
{
    left.repository_id < right.repository_id || (left.repository_id == right.repository_id
        && left.number < right.number)
}

/// Pull request rows are in key order, so no key has two.
pub open spec fn pulls_ordered(rows: Seq<PrRecord>) -> bool {
    forall|i: int, j: int|
        0 <= i < j < rows.len() ==> key_before(
            (#[trigger] rows[i]).spec_key(),
            (#[trigger] rows[j]).spec_key(),
        )
}

/// Repository rows are in order of their ids, so no id has two.
pub open spec fn repos_ordered(rows: Seq<RepoRecord>) -> bool {
    forall|i: int, j: int|
        0 <= i < j < rows.len() ==> (#[trigger] rows[i]).repository_id < (
        #[trigger] rows[j]).repository_id
}

/// A repository has a row.
pub open spec fn has_repo(rows: Seq<RepoRecord>, repository_id: u64) -> bool {
    exists|i: int| 0 <= i < rows.len() && (#[trigger] rows[i]).repository_id == repository_id
}

pub open spec fn retirements_ordered(queue: Seq<Retirement>, last_id: u64) -> bool {
    &&& forall|i: int, j: int|
        0 <= i < j < queue.len() ==> (#[trigger] queue[i]).id < (#[trigger] queue[j]).id
    &&& forall|i: int| 0 <= i < queue.len() ==> (#[trigger] queue[i]).id <= last_id
}

pub open spec fn keys_of(rows: Seq<PrRecord>) -> Seq<PrKey> {
    rows.map_values(|row: PrRecord| row.spec_key())
}

/// A row as it reads back: with its repository's installation.
pub open spec fn reads_as(repositories: Seq<RepoRecord>, row: PrRecord, read: PrRecord) -> bool {
    exists|i: int|
        0 <= i < repositories.len() && (#[trigger] repositories[i]).repository_id
            == row.repository_id && read == (PrRecord {
            installation_id: repositories[i].installation_id,
            ..row
        })
}

/// The rows a repository's prune removes: not listed as live, and not synced since the
/// listing started.
pub open spec fn stale_pull(
    repository_id: u64,
    live: Seq<u64>,
    synced_before: u64,
) -> spec_fn(PrRecord) -> bool {
    |row: PrRecord|
        row.repository_id == repository_id && !live.contains(row.number) && row.synced_at
            < synced_before
}

/// The rows that go with some repositories.
pub open spec fn pull_of(repository_ids: Seq<u64>) -> spec_fn(PrRecord) -> bool {
    |row: PrRecord| repository_ids.contains(row.repository_id)
}

/// The repositories an installation's prune removes.
pub open spec fn stale_repo(
    installation_id: u64,
    live: Seq<u64>,
    synced_before: u64,
) -> spec_fn(RepoRecord) -> bool {
    |row: RepoRecord|
        row.installation_id == installation_id && !live.contains(row.repository_id)
            && row.synced_at < synced_before
}

pub open spec fn repo_of(installation_id: u64) -> spec_fn(RepoRecord) -> bool {
    |row: RepoRecord| row.installation_id == installation_id
}

/// What is left once something has gone.
pub open spec fn other_than<T>(gone: spec_fn(T) -> bool) -> spec_fn(T) -> bool {
    |row: T| !gone(row)
}

pub open spec fn ids_of(rows: Seq<RepoRecord>) -> Seq<u64> {
    rows.map_values(|row: RepoRecord| row.repository_id)
}

/// The rows that go with the repositories that leave.
pub open spec fn pull_within(
    repositories: Seq<RepoRecord>,
    leaves: spec_fn(RepoRecord) -> bool,
) -> spec_fn(PrRecord) -> bool {
    |row: PrRecord|
        exists|i: int|
            0 <= i < repositories.len() && (#[trigger] repositories[i]).repository_id
                == row.repository_id && leaves(repositories[i])
}

/// The row a listing has for a repository: the last it names the repository with.
pub open spec fn lists_row(listing: Seq<RepoRecord>, row: RepoRecord) -> bool {
    exists|i: int|
        0 <= i < listing.len() && #[trigger] listing[i] == row && forall|j: int|
            i < j < listing.len() ==> (#[trigger] listing[j]).repository_id != row.repository_id
}

/// Retirements queued for some keys, numbered on from the last.
pub open spec fn queued(keys: Seq<PrKey>, last_id: u64, synced_before: Option<u64>) -> Seq<
    Retirement,
> {
    Seq::new(
        keys.len(),
        |i: int| Retirement { id: (last_id + 1 + i) as u64, key: keys[i], synced_before },
    )
}

/// The retirements queued after one.
pub open spec fn waits_after(through: u64) -> spec_fn(Retirement) -> bool {
    |retirement: Retirement| retirement.id > through
}

proof fn lemma_filter_step<T>(rows: Seq<T>, i: int, pred: spec_fn(T) -> bool)
    requires
        0 <= i < rows.len(),
    ensures
        rows.take(i + 1).filter(pred) == (if pred(rows[i]) {
            rows.take(i).filter(pred).push(rows[i])
        } else {
            rows.take(i).filter(pred)
        }),
{
    reveal(Seq::filter);
    assert(rows.take(i + 1).drop_last() =~= rows.take(i));
}

/// What a filter keeps: those of the rows that the predicate holds of.
proof fn lemma_filter<T>(rows: Seq<T>, pred: spec_fn(T) -> bool)
    ensures
        forall|row: T|
            #![trigger rows.filter(pred).contains(row)]
            #![trigger rows.contains(row)]
            rows.filter(pred).contains(row) <==> rows.contains(row) && pred(row),
    decreases rows.len(),
{
    reveal(Seq::filter);
    if rows.len() > 0 {
        let shorter = rows.drop_last();
        lemma_filter(shorter, pred);
        let kept = rows.filter(pred);
        assert forall|row: T|
            #![trigger kept.contains(row)]
            #![trigger rows.contains(row)]
            kept.contains(row) <==> rows.contains(row) && pred(row) by {
            if kept.contains(row) {
                let i = choose|i: int| 0 <= i < kept.len() && kept[i] == row;
                if i < shorter.filter(pred).len() {
                    assert(shorter.filter(pred)[i] == row);
                    assert(shorter.contains(row));
                    let k = choose|k: int| 0 <= k < shorter.len() && shorter[k] == row;
                    assert(rows[k] == row);
                } else {
                    assert(rows[rows.len() - 1] == row);
                }
            }
            if rows.contains(row) && pred(row) {
                let k = choose|k: int| 0 <= k < rows.len() && rows[k] == row;
                if k < shorter.len() {
                    assert(shorter[k] == row);
                    assert(shorter.filter(pred).contains(row));
                    let i = choose|i: int|
                        0 <= i < shorter.filter(pred).len() && shorter.filter(pred)[i] == row;
                    assert(kept[i] == row);
                } else {
                    assert(kept[kept.len() - 1] == row);
                }
            }
        }
    }
}

proof fn lemma_filter_pulls_ordered(rows: Seq<PrRecord>, pred: spec_fn(PrRecord) -> bool)
    requires
        pulls_ordered(rows),
    ensures
        pulls_ordered(rows.filter(pred)),
    decreases rows.len(),
{
    reveal(Seq::filter);
    if rows.len() > 0 {
        let shorter = rows.drop_last();
        lemma_filter_pulls_ordered(shorter, pred);
        lemma_filter(shorter, pred);
        let kept = rows.filter(pred);
        let earlier = shorter.filter(pred);
        assert forall|i: int, j: int| 0 <= i < j < kept.len() implies key_before(
            (#[trigger] kept[i]).spec_key(),
            (#[trigger] kept[j]).spec_key(),
        ) by {
            assert(kept[i] == earlier[i]);
            if j < earlier.len() {
                assert(kept[j] == earlier[j]);
            } else {
                assert(earlier.contains(earlier[i]));
                let k = choose|k: int| 0 <= k < shorter.len() && shorter[k] == earlier[i];
                assert(rows[k] == kept[i]);
                assert(rows[rows.len() - 1] == kept[j]);
            }
        }
    }
}

proof fn lemma_filter_repos_ordered(rows: Seq<RepoRecord>, pred: spec_fn(RepoRecord) -> bool)
    requires
        repos_ordered(rows),
    ensures
        repos_ordered(rows.filter(pred)),
    decreases rows.len(),
{
    reveal(Seq::filter);
    if rows.len() > 0 {
        let shorter = rows.drop_last();
        lemma_filter_repos_ordered(shorter, pred);
        lemma_filter(shorter, pred);
        let kept = rows.filter(pred);
        let earlier = shorter.filter(pred);
        assert forall|i: int, j: int| 0 <= i < j < kept.len() implies (
        #[trigger] kept[i]).repository_id < (#[trigger] kept[j]).repository_id by {
            assert(kept[i] == earlier[i]);
            if j < earlier.len() {
                assert(kept[j] == earlier[j]);
            } else {
                assert(earlier.contains(earlier[i]));
                let k = choose|k: int| 0 <= k < shorter.len() && shorter[k] == earlier[i];
                assert(rows[k] == kept[i]);
                assert(rows[rows.len() - 1] == kept[j]);
            }
        }
    }
}

/// What listing one more row does to the rows a listing has.
proof fn lemma_lists_row_push(listing: Seq<RepoRecord>, last: RepoRecord, row: RepoRecord)
    ensures
        lists_row(listing.push(last), row) <==> row == last || (lists_row(listing, row)
            && row.repository_id != last.repository_id),
{
    let longer = listing.push(last);
    let end = listing.len() as int;
    assert(longer[end] == last);
    if lists_row(longer, row) {
        let i = choose|i: int|
            0 <= i < longer.len() && #[trigger] longer[i] == row && forall|j: int|
                i < j < longer.len() ==> (#[trigger] longer[j]).repository_id != row.repository_id;
        if i < end {
            assert(longer[end].repository_id != row.repository_id);
            assert(listing[i] == row);
            assert forall|j: int| i < j < listing.len() implies (#[trigger] listing[j]).repository_id
                != row.repository_id by {
                assert(longer[j] == listing[j]);
            }
        }
    }
    if lists_row(listing, row) && row.repository_id != last.repository_id {
        let i = choose|i: int|
            0 <= i < listing.len() && #[trigger] listing[i] == row && forall|j: int|
                i < j < listing.len() ==> (#[trigger] listing[j]).repository_id
                    != row.repository_id;
        assert(longer[i] == row);
        assert forall|j: int| i < j < longer.len() implies (#[trigger] longer[j]).repository_id
            != row.repository_id by {
            if j < end {
                assert(longer[j] == listing[j]);
            }
        }
    }
}

fn contains_number(numbers: &Vec<u64>, number: u64) -> (found: bool)
    ensures
        found == numbers@.contains(number),
{
    let mut i: usize = 0;
    while i < numbers.len()
        invariant
            i <= numbers.len(),
            forall|k: int| 0 <= k < i ==> numbers[k] != number,
        decreases numbers.len() - i,
    {
        if numbers[i] == number {
            assert(numbers@[i as int] == number);
            return true;
        }
        i += 1;
    }
    false
}

/// A repository has one row, so whether its pull requests go is whether that row goes.
proof fn lemma_pull_within(
    repositories: Seq<RepoRecord>,
    leaves: spec_fn(RepoRecord) -> bool,
    repo: RepoRecord,
    pull: PrRecord,
)
    requires
        repos_ordered(repositories),
        repositories.contains(repo),
        pull.repository_id == repo.repository_id,
    ensures
        pull_within(repositories, leaves)(pull) <==> leaves(repo),
{
    let at = choose|at: int| 0 <= at < repositories.len() && repositories[at] == repo;
    assert(repositories[at].repository_id == pull.repository_id);
    if pull_within(repositories, leaves)(pull) {
        let i = choose|i: int|
            0 <= i < repositories.len() && (#[trigger] repositories[i]).repository_id
                == pull.repository_id && leaves(repositories[i]);
        if i < at {
            assert(repositories[i].repository_id < repositories[at].repository_id);
        } else if at < i {
            assert(repositories[at].repository_id < repositories[i].repository_id);
        }
    }
}

/// What a prune comes to, row by row and retirement by retirement.
proof fn lemma_pruned(
    before: Tables,
    after: Tables,
    gone: spec_fn(PrRecord) -> bool,
    synced_before: Option<u64>,
    keys: Seq<PrKey>,
)
    requires
        pulls_ordered(before.pull_requests@),
        after.pruned(before, gone, synced_before, keys),
    ensures
        forall|row: PrRecord| #[trigger]
            after.pull_requests@.contains(row) <==> before.pull_requests@.contains(row) && !gone(
                row,
            ),
        forall|row: PrRecord| #[trigger]
            before.pull_requests@.contains(row) ==> (keys.contains(row.spec_key()) <==> gone(row)),
        forall|key: PrKey| #[trigger]
            keys.contains(key) ==> exists|i: int|
                0 <= i < before.pull_requests.len() && (
                #[trigger] before.pull_requests[i]).repository_id == key.repository_id
                    && before.pull_requests[i].number == key.number,
        forall|j: int, k: int|
            0 <= j < k < keys.len() ==> (#[trigger] keys[j]).repository_id < (
            #[trigger] keys[k]).repository_id || (keys[j].repository_id == keys[k].repository_id
                && keys[j].number < keys[k].number),
        after.retirements.len() == before.retirements.len() + keys.len(),
        forall|i: int|
            0 <= i < before.retirements.len() ==> #[trigger] after.retirements[i]
                == before.retirements[i],
        forall|k: int|
            #![trigger keys[k]]
            0 <= k < keys.len() ==> {
                let queued = after.retirements[before.retirements.len() + k];
                &&& queued.key == keys[k]
                &&& queued.id == before.last_retirement_id + 1 + k
                &&& queued.synced_before == synced_before
            },
{
    let rows = before.pull_requests@;
    let removed = rows.filter(gone);
    lemma_filter(rows, other_than(gone));
    lemma_filter(rows, gone);
    assert forall|row: PrRecord| #[trigger] rows.contains(row) implies (keys.contains(
        row.spec_key(),
    ) <==> gone(row)) by {
        let at = choose|at: int| 0 <= at < rows.len() && rows[at] == row;
        if gone(row) {
            assert(removed.contains(row));
            let k = choose|k: int| 0 <= k < removed.len() && removed[k] == row;
            assert(keys[k] == row.spec_key());
        }
        if keys.contains(row.spec_key()) {
            let k = choose|k: int| 0 <= k < keys.len() && keys[k] == row.spec_key();
            assert(removed.contains(removed[k]));
            let i = choose|i: int| 0 <= i < rows.len() && rows[i] == removed[k];
            if i < at {
                assert(key_before(rows[i].spec_key(), rows[at].spec_key()));
            } else if at < i {
                assert(key_before(rows[at].spec_key(), rows[i].spec_key()));
            }
        }
    }
    assert forall|key: PrKey| #[trigger] keys.contains(key) implies exists|i: int|
        0 <= i < before.pull_requests.len() && (#[trigger] before.pull_requests[i]).repository_id
            == key.repository_id && before.pull_requests[i].number == key.number by {
        let k = choose|k: int| 0 <= k < keys.len() && keys[k] == key;
        assert(removed.contains(removed[k]));
        let i = choose|i: int| 0 <= i < rows.len() && rows[i] == removed[k];
        assert(before.pull_requests[i].spec_key() == keys[k]);
    }
    lemma_filter_pulls_ordered(rows, gone);
    assert forall|j: int, k: int| 0 <= j < k < keys.len() implies key_before(
        #[trigger] keys[j],
        #[trigger] keys[k],
    ) by {
        assert(key_before(removed[j].spec_key(), removed[k].spec_key()));
    }
    assert forall|k: int|
        #![trigger keys[k]]
        0 <= k < keys.len() implies after.retirements@[before.retirements.len() + k] == queued(
        keys,
        before.last_retirement_id,
        synced_before,
    )[k] by {}
}

/// What dropping repositories comes to for the pull requests of each.
proof fn lemma_repos_dropped(
    before: Tables,
    after: Tables,
    leaves: spec_fn(RepoRecord) -> bool,
    synced_before: Option<u64>,
    keys: Seq<PrKey>,
)
    requires
        before.wf(),
        after.repositories@ == before.repositories@.filter(other_than(leaves)),
        after.pruned(before, pull_within(before.repositories@, leaves), synced_before, keys),
    ensures
        forall|repo: RepoRecord| #[trigger]
            after.repositories@.contains(repo) <==> before.repositories@.contains(repo) && !leaves(
                repo,
            ),
        forall|row: PrRecord| #[trigger]
            after.pull_requests@.contains(row) ==> before.pull_requests@.contains(row),
        forall|repo: RepoRecord, pull: PrRecord|
            #![trigger before.repositories@.contains(repo), before.pull_requests@.contains(pull)]
            before.repositories@.contains(repo) && before.pull_requests@.contains(pull)
                && pull.repository_id == repo.repository_id ==> {
                &&& after.pull_requests@.contains(pull) <==> !leaves(repo)
                &&& keys.contains(pull.spec_key()) <==> leaves(repo)
            },
        forall|key: PrKey| #[trigger]
            keys.contains(key) ==> exists|i: int|
                0 <= i < before.pull_requests.len() && (
                #[trigger] before.pull_requests[i]).repository_id == key.repository_id
                    && before.pull_requests[i].number == key.number,
        forall|j: int, k: int|
            0 <= j < k < keys.len() ==> (#[trigger] keys[j]).repository_id < (
            #[trigger] keys[k]).repository_id || (keys[j].repository_id == keys[k].repository_id
                && keys[j].number < keys[k].number),
        after.retirements.len() == before.retirements.len() + keys.len(),
        forall|i: int|
            0 <= i < before.retirements.len() ==> #[trigger] after.retirements[i]
                == before.retirements[i],
        forall|k: int|
            #![trigger keys[k]]
            0 <= k < keys.len() ==> {
                let queued = after.retirements[before.retirements.len() + k];
                &&& queued.key == keys[k]
                &&& queued.id == before.last_retirement_id + 1 + k
                &&& queued.synced_before == synced_before
            },
{
    lemma_filter(before.repositories@, other_than(leaves));
    let gone = pull_within(before.repositories@, leaves);
    lemma_pruned(before, after, gone, synced_before, keys);
    assert forall|repo: RepoRecord, pull: PrRecord|
        #![trigger before.repositories@.contains(repo), before.pull_requests@.contains(pull)]
        before.repositories@.contains(repo) && before.pull_requests@.contains(pull)
            && pull.repository_id == repo.repository_id implies (gone(pull) <==> leaves(repo)) by {
        lemma_pull_within(before.repositories@, leaves, repo, pull);
    }
}

/// The projection's tables.
#[derive(Debug, PartialEq, Eq)]
pub struct Tables {
    pub pull_requests: Vec<PrRecord>,
    pub repositories: Vec<RepoRecord>,
    pub batches: Vec<BatchRecord>,
    pub running_batches: Vec<RunningBatch>,
    pub retirements: Vec<Retirement>,
    /// The last retirement id handed out, never used again.
    pub last_retirement_id: u64,
}

impl Tables {
    /// Every pull request's repository has a row.
    pub open spec fn references_hold(self) -> bool {
        forall|i: int|
            0 <= i < self.pull_requests.len() ==> has_repo(
                self.repositories@,
                (#[trigger] self.pull_requests[i]).repository_id,
            )
    }

    pub open spec fn wf(self) -> bool {
        &&& pulls_ordered(self.pull_requests@)
        &&& repos_ordered(self.repositories@)
        &&& self.references_hold()
        &&& retirements_ordered(self.retirements@, self.last_retirement_id)
        &&& forall|i: int, j: int|
            0 <= i < j < self.batches.len() ==> (#[trigger] self.batches[i]).batch_id@ != (
            #[trigger] self.batches[j]).batch_id@
        &&& forall|i: int, j: int|
            0 <= i < j < self.running_batches.len() ==> (
            #[trigger] self.running_batches[i]).batch_id@ != (
            #[trigger] self.running_batches[j]).batch_id@
    }

    /// The outbox has ids left for every row there is.
    pub open spec fn can_prune(self) -> bool {
        self.last_retirement_id + self.pull_requests.len() <= u64::MAX
    }

    /// Everything but the pull request rows is as it was.
    pub open spec fn same_but_pulls(self, before: Tables) -> bool {
        &&& self.repositories == before.repositories
        &&& self.batches == before.batches
        &&& self.running_batches == before.running_batches
        &&& self.retirements == before.retirements
        &&& self.last_retirement_id == before.last_retirement_id
    }

    /// A row has been written, in place of the one its key had.
    pub open spec fn wrote(self, before: Tables, pr: PrRecord) -> bool {
        &&& self.same_but_pulls(before)
        &&& forall|row: PrRecord|
            self.pull_requests@.contains(row) <==> row == pr || (before.pull_requests@.contains(row)
                && row.spec_key() != pr.spec_key())
    }

    /// The row of a key has gone, if there was one.
    pub open spec fn dropped(self, before: Tables, key: PrKey) -> bool {
        &&& self.same_but_pulls(before)
        &&& forall|row: PrRecord|
            self.pull_requests@.contains(row) <==> before.pull_requests@.contains(row)
                && row.spec_key() != key
    }

    /// What the pull request of a key reads as.
    pub open spec fn pull_reads(self, key: PrKey, read: Option<PrRecord>) -> bool {
        match read {
            Some(read) => exists|i: int|
                0 <= i < self.pull_requests.len() && (#[trigger] self.pull_requests[i]).spec_key()
                    == key && reads_as(self.repositories@, self.pull_requests[i], read),
            None => forall|i: int|
                0 <= i < self.pull_requests.len() ==> (#[trigger] self.pull_requests[i]).spec_key()
                    != key,
        }
    }

    /// Everything but the batches is as it was.
    pub open spec fn same_but_batches(self, before: Tables) -> bool {
        &&& self.pull_requests == before.pull_requests
        &&& self.repositories == before.repositories
        &&& self.retirements == before.retirements
        &&& self.last_retirement_id == before.last_retirement_id
    }

    /// A batch has been listed as running, unless it was.
    pub open spec fn listed(self, before: Tables, batch: RunningBatch) -> bool {
        &&& self.same_but_batches(before)
        &&& self.batches == before.batches
        &&& self.running_batches@ == (if is_listed(before.running_batches@, batch.batch_id@) {
            before.running_batches@
        } else {
            before.running_batches@.push(batch)
        })
    }

    /// A finished batch has been recorded, unless it was, and is not listed as running.
    pub open spec fn recorded(self, before: Tables, batch: BatchRecord) -> bool {
        &&& self.same_but_batches(before)
        &&& self.running_batches@ == before.running_batches@.filter(other_batches(batch.batch_id@))
        &&& self.batches@ == (if is_recorded(before.batches@, batch.batch_id@) {
            before.batches@
        } else {
            before.batches@.push(batch)
        })
    }

    /// The rows for which `gone` holds have gone, and are queued for retirement.
    pub open spec fn pruned(
        self,
        before: Tables,
        gone: spec_fn(PrRecord) -> bool,
        synced_before: Option<u64>,
        keys: Seq<PrKey>,
    ) -> bool {
        &&& keys == keys_of(before.pull_requests@.filter(gone))
        &&& self.pull_requests@ == before.pull_requests@.filter(other_than(gone))
        &&& self.retirements@ == before.retirements@ + queued(
            keys,
            before.last_retirement_id,
            synced_before,
        )
        &&& self.last_retirement_id == before.last_retirement_id + keys.len()
        &&& self.batches == before.batches
        &&& self.running_batches == before.running_batches
    }

    /// Every retirement up to and including one has been forgotten.
    pub open spec fn acknowledges(self, before: Tables, through: u64) -> bool {
        &&& self.pull_requests == before.pull_requests
        &&& self.repositories == before.repositories
        &&& self.batches == before.batches
        &&& self.running_batches == before.running_batches
        &&& self.last_retirement_id == before.last_retirement_id
        &&& self.retirements@ == before.retirements@.filter(waits_after(through))
    }

    /// Empty tables.
    pub fn new() -> (tables: Tables)
        ensures
            tables.wf(),
            tables.pull_requests@.len() == 0,
            tables.repositories@.len() == 0,
            tables.batches@.len() == 0,
            tables.running_batches@.len() == 0,
            tables.retirements@.len() == 0,
            tables.last_retirement_id == 0,
    {
        Tables {
            pull_requests: Vec::new(),
            repositories: Vec::new(),
            batches: Vec::new(),
            running_batches: Vec::new(),
            retirements: Vec::new(),
            last_retirement_id: 0,
        }
    }

    /// Where the first row is whose key is not before `key`.
    fn pull_place(&self, key: PrKey) -> (at: usize)
        requires
            pulls_ordered(self.pull_requests@),
        ensures
            at <= self.pull_requests.len(),
            forall|i: int|
                0 <= i < at ==> key_before((#[trigger] self.pull_requests[i]).spec_key(), key),
            forall|i: int|
                at <= i < self.pull_requests.len() ==> !key_before(
                    (#[trigger] self.pull_requests[i]).spec_key(),
                    key,
                ),
    {
        let mut at: usize = 0;
        while at < self.pull_requests.len() && is_key_before(self.pull_requests[at].key(), key)
            invariant
                at <= self.pull_requests.len(),
                forall|i: int|
                    0 <= i < at ==> key_before((#[trigger] self.pull_requests[i]).spec_key(), key),
            decreases self.pull_requests.len() - at,
        {
            at += 1;
        }
        at
    }

    /// Writes a pull request's row, in place of the one it had.
    pub fn upsert_pr(&mut self, pr: PrRecord)
        requires
            old(self).wf(),
            has_repo(old(self).repositories@, pr.repository_id),
        ensures
            final(self).wf(),
            final(self).wrote(*old(self), pr),
            forall|row: PrRecord| #[trigger]
                final(self).pull_requests@.contains(row) <==> row == pr || (
                old(self).pull_requests@.contains(row) && (row.repository_id != pr.repository_id
                    || row.number != pr.number)),
            final(self).repositories == old(self).repositories,
            final(self).batches == old(self).batches,
            final(self).running_batches == old(self).running_batches,
            final(self).retirements == old(self).retirements,
            final(self).last_retirement_id == old(self).last_retirement_id,
    {
        let at: usize = self.pull_place(pr.key());
        let ghost before = self.pull_requests@;
        let ghost written = pr;
        if at < self.pull_requests.len() && self.pull_requests[at].key() == pr.key() {
            self.pull_requests.set(at, pr);
            proof {
                let after = self.pull_requests@;
                assert(after == before.update(at as int, written));
                assert forall|row: PrRecord|
                    after.contains(row) <==> row == written || (before.contains(row)
                        && row.spec_key() != written.spec_key()) by {
                    if after.contains(row) && row != written {
                        let k = choose|k: int| 0 <= k < after.len() && after[k] == row;
                        assert(before[k] == row);
                    }
                    if row == written {
                        assert(after[at as int] == row);
                    }
                    if before.contains(row) && row.spec_key() != written.spec_key() {
                        let k = choose|k: int| 0 <= k < before.len() && before[k] == row;
                        assert(after[k] == row);
                    }
                }
            }
        } else {
            self.pull_requests.insert(at, pr);
            proof {
                let after = self.pull_requests@;
                assert(after == before.insert(at as int, written));
                assert forall|i: int, j: int| 0 <= i < j < after.len() implies key_before(
                    (#[trigger] after[i]).spec_key(),
                    (#[trigger] after[j]).spec_key(),
                ) by {
                    if j == at {
                        assert(after[i] == before[i]);
                    } else if i == at {
                        assert(after[j] == before[j - 1]);
                        assert(!key_before(before[j - 1].spec_key(), written.spec_key()));
                        if at < j - 1 {
                            assert(key_before(before[at as int].spec_key(), before[j - 1].spec_key()));
                        }
                    } else {
                        let a = if i < at {
                            i
                        } else {
                            i - 1
                        };
                        let b = if j < at {
                            j
                        } else {
                            j - 1
                        };
                        assert(after[i] == before[a] && after[j] == before[b]);
                    }
                }
                assert forall|row: PrRecord|
                    after.contains(row) <==> row == written || (before.contains(row)
                        && row.spec_key() != written.spec_key()) by {
                    if after.contains(row) && row != written {
                        let k = choose|k: int| 0 <= k < after.len() && after[k] == row;
                        let b = if k < at {
                            k
                        } else {
                            k - 1
                        };
                        assert(before[b] == row);
                        assert(after[at as int] == written);
                    }
                    if row == written {
                        assert(after[at as int] == row);
                    }
                    if before.contains(row) && row.spec_key() != written.spec_key() {
                        let k = choose|k: int| 0 <= k < before.len() && before[k] == row;
                        assert(after[if k < at {
                            k
                        } else {
                            k + 1
                        }] == row);
                    }
                }
            }
        }
        proof {
            assert forall|i: int| 0 <= i < self.pull_requests.len() implies has_repo(
                self.repositories@,
                (#[trigger] self.pull_requests[i]).repository_id,
            ) by {
                let row = self.pull_requests@[i];
                assert(self.pull_requests@.contains(row));
                if row != written {
                    let k = choose|k: int| 0 <= k < before.len() && before[k] == row;
                    assert(has_repo(self.repositories@, old(self).pull_requests[k].repository_id));
                }
            }
        }
    }

    /// The repository row with an id, which is there.
    fn repo_place(&self, repository_id: u64) -> (at: usize)
        requires
            has_repo(self.repositories@, repository_id),
        ensures
            at < self.repositories.len(),
            self.repositories[at as int].repository_id == repository_id,
    {
        let mut at: usize = 0;
        while at < self.repositories.len()
            invariant
                at <= self.repositories.len(),
                has_repo(self.repositories@, repository_id),
                forall|i: int|
                    0 <= i < at ==> (#[trigger] self.repositories[i]).repository_id
                        != repository_id,
            decreases self.repositories.len() - at,
        {
            if self.repositories[at].repository_id == repository_id {
                return at;
            }
            at += 1;
        }
        assert(false) by {
            let i = choose|i: int|
                0 <= i < self.repositories@.len() && (#[trigger] self.repositories@[i]).repository_id
                    == repository_id;
            assert(self.repositories[i].repository_id != repository_id);
        }
        at
    }

    /// A row as it reads back.
    fn joined(&self, row: &PrRecord) -> (read: PrRecord)
        requires
            has_repo(self.repositories@, row.repository_id),
        ensures
            reads_as(self.repositories@, *row, read),
    {
        let at: usize = self.repo_place(row.repository_id);
        let mut read = row.clone();
        read.installation_id = self.repositories[at].installation_id;
        assert(self.repositories@[at as int].repository_id == row.repository_id);
        read
    }

    /// A pull request as the projection has it.
    pub fn get_pr(&self, key: PrKey) -> (read: Option<PrRecord>)
        requires
            self.wf(),
        ensures
            self.pull_reads(key, read),
            read matches Some(read) ==> read.repository_id == key.repository_id && read.number
                == key.number,
            read is Some <==> exists|i: int|
                0 <= i < self.pull_requests.len() && (
                #[trigger] self.pull_requests[i]).repository_id == key.repository_id
                    && self.pull_requests[i].number == key.number,
    {
        let mut i: usize = 0;
        while i < self.pull_requests.len()
            invariant
                self.wf(),
                i <= self.pull_requests.len(),
                forall|k: int|
                    0 <= k < i ==> (#[trigger] self.pull_requests[k]).spec_key() != key,
            decreases self.pull_requests.len() - i,
        {
            if self.pull_requests[i].key() == key {
                assert(self.pull_requests[i as int].spec_key() == key);
                return Some(self.joined(&self.pull_requests[i]));
            }
            i += 1;
        }
        None
    }

    /// Drops a pull request's row, if it has one.
    pub fn delete_pr(&mut self, key: PrKey)
        requires
            old(self).wf(),
        ensures
            final(self).wf(),
            final(self).dropped(*old(self), key),
            forall|row: PrRecord| #[trigger]
                final(self).pull_requests@.contains(row) <==> old(self).pull_requests@.contains(row)
                    && (row.repository_id != key.repository_id || row.number != key.number),
            final(self).repositories == old(self).repositories,
            final(self).batches == old(self).batches,
            final(self).running_batches == old(self).running_batches,
            final(self).retirements == old(self).retirements,
            final(self).last_retirement_id == old(self).last_retirement_id,
    {
        let at: usize = self.pull_place(key);
        let ghost before = self.pull_requests@;
        if at < self.pull_requests.len() && self.pull_requests[at].key() == key {
            self.pull_requests.remove(at);
            proof {
                let after = self.pull_requests@;
                assert(after == before.remove(at as int));
                assert forall|i: int, j: int| 0 <= i < j < after.len() implies key_before(
                    (#[trigger] after[i]).spec_key(),
                    (#[trigger] after[j]).spec_key(),
                ) by {
                    let a = if i < at {
                        i
                    } else {
                        i + 1
                    };
                    let b = if j < at {
                        j
                    } else {
                        j + 1
                    };
                    assert(after[i] == before[a] && after[j] == before[b]);
                }
            }
        }
        proof {
            let after = self.pull_requests@;
            assert forall|row: PrRecord|
                after.contains(row) <==> before.contains(row) && row.spec_key() != key by {
                if after.contains(row) {
                    let k = choose|k: int| 0 <= k < after.len() && after[k] == row;
                    if after.len() == before.len() {
                        assert(before[k] == row);
                        if k < at {
                            assert(key_before(before[k].spec_key(), key));
                        } else {
                            assert(!key_before(before[k].spec_key(), key));
                            if at < k {
                                assert(key_before(before[at as int].spec_key(), before[k].spec_key()));
                            }
                        }
                    } else {
                        let b = if k < at {
                            k
                        } else {
                            k + 1
                        };
                        assert(before[b] == row);
                        if b < at {
                            assert(key_before(before[b].spec_key(), before[at as int].spec_key()));
                        } else {
                            assert(key_before(before[at as int].spec_key(), before[b].spec_key()));
                        }
                    }
                }
                if before.contains(row) && row.spec_key() != key {
                    let k = choose|k: int| 0 <= k < before.len() && before[k] == row;
                    if after.len() == before.len() {
                        assert(after[k] == row);
                    } else {
                        assert(after[if k < at {
                            k
                        } else {
                            k - 1
                        }] == row);
                    }
                }
            }
            assert forall|i: int| 0 <= i < self.pull_requests.len() implies has_repo(
                self.repositories@,
                (#[trigger] self.pull_requests[i]).repository_id,
            ) by {
                let row = self.pull_requests@[i];
                assert(after.contains(row));
                let k = choose|k: int| 0 <= k < before.len() && before[k] == row;
                assert(has_repo(self.repositories@, old(self).pull_requests[k].repository_id));
            }
        }
    }

    /// Removes the marked rows, and gives back their keys in key order.
    fn remove_marked(
        &mut self,
        marks: &Vec<bool>,
        Ghost(gone): Ghost<spec_fn(PrRecord) -> bool>,
    ) -> (keys: Vec<PrKey>)
        requires
            pulls_ordered(old(self).pull_requests@),
            marks.len() == old(self).pull_requests.len(),
            forall|i: int|
                0 <= i < marks.len() ==> #[trigger] marks[i] == gone(old(self).pull_requests[i]),
        ensures
            keys@ == keys_of(old(self).pull_requests@.filter(gone)),
            final(self).pull_requests@ == old(self).pull_requests@.filter(other_than(gone)),
            final(self).same_but_pulls(*old(self)),
            pulls_ordered(final(self).pull_requests@),
            keys.len() <= old(self).pull_requests.len(),
    {
        let mut keys: Vec<PrKey> = Vec::new();
        let mut kept: Vec<PrRecord> = Vec::new();
        let mut i: usize = 0;
        let ghost rows = self.pull_requests@;
        proof {
            reveal(Seq::filter);
            assert(keys@ =~= keys_of(rows.take(0).filter(gone)));
            assert(kept@ =~= rows.take(0).filter(other_than(gone)));
        }
        while i < self.pull_requests.len()
            invariant
                *self == *old(self),
                rows == self.pull_requests@,
                i <= rows.len(),
                marks.len() == rows.len(),
                forall|i: int|
                    0 <= i < marks.len() ==> #[trigger] marks[i] == gone(
                        old(self).pull_requests[i],
                    ),
                keys@ == keys_of(rows.take(i as int).filter(gone)),
                kept@ == rows.take(i as int).filter(other_than(gone)),
                keys.len() <= i,
            decreases rows.len() - i,
        {
            proof {
                lemma_filter_step(rows, i as int, gone);
                lemma_filter_step(rows, i as int, other_than(gone));
            }
            if marks[i] {
                let ghost before = rows.take(i as int).filter(gone);
                keys.push(self.pull_requests[i].key());
                assert(keys_of(before.push(rows[i as int])) =~= keys_of(before).push(
                    rows[i as int].spec_key(),
                ));
            } else {
                kept.push(self.pull_requests[i].clone());
            }
            i += 1;
        }
        assert(rows.take(i as int) == rows);
        proof {
            lemma_filter_pulls_ordered(rows, other_than(gone));
        }
        self.pull_requests = kept;
        keys
    }

    /// Queues keys for retirement.
    fn queue_retirements(&mut self, keys: &Vec<PrKey>, synced_before: Option<u64>)
        requires
            retirements_ordered(old(self).retirements@, old(self).last_retirement_id),
            old(self).last_retirement_id + keys.len() <= u64::MAX,
        ensures
            final(self).pull_requests == old(self).pull_requests,
            final(self).repositories == old(self).repositories,
            final(self).batches == old(self).batches,
            final(self).running_batches == old(self).running_batches,
            final(self).retirements@ == old(self).retirements@ + queued(
                keys@,
                old(self).last_retirement_id,
                synced_before,
            ),
            final(self).last_retirement_id == old(self).last_retirement_id + keys.len(),
            retirements_ordered(final(self).retirements@, final(self).last_retirement_id),
    {
        let ghost last = self.last_retirement_id;
        let ghost before = self.retirements@;
        let mut i: usize = 0;
        assert(before =~= before + queued(keys@.take(0), last, synced_before));
        while i < keys.len()
            invariant
                i <= keys.len(),
                self.pull_requests == old(self).pull_requests,
                self.repositories == old(self).repositories,
                self.batches == old(self).batches,
                self.running_batches == old(self).running_batches,
                self.last_retirement_id == last + i,
                last + keys.len() <= u64::MAX,
                self.retirements@ == before + queued(keys@.take(i as int), last, synced_before),
                retirements_ordered(self.retirements@, self.last_retirement_id),
            decreases keys.len() - i,
        {
            self.last_retirement_id = self.last_retirement_id + 1;
            self.retirements.push(
                Retirement { id: self.last_retirement_id, key: keys[i], synced_before },
            );
            assert(self.retirements@ =~= before + queued(
                keys@.take(i + 1),
                last,
                synced_before,
            ));
            i += 1;
        }
        assert(keys@.take(i as int) == keys@);
    }

    /// Prunes a repository's rows down to the live ones, sparing what was synced since the
    /// listing started, and gives back the keys that went, in key order.
    pub fn retain_prs(&mut self, repository_id: u64, live: &Vec<u64>, synced_before: u64) -> (keys:
        Vec<PrKey>)
        requires
            old(self).wf(),
            old(self).can_prune(),
        ensures
            final(self).wf(),
            final(self).repositories == old(self).repositories,
            final(self).pruned(
                *old(self),
                stale_pull(repository_id, live@, synced_before),
                Some(synced_before),
                keys@,
            ),
            forall|pull: PrRecord| #[trigger]
                final(self).pull_requests@.contains(pull) ==> old(self).pull_requests@.contains(
                    pull,
                ),
            forall|pull: PrRecord| #[trigger]
                old(self).pull_requests@.contains(pull) ==> {
                    let stays = pull.repository_id != repository_id || live@.contains(pull.number)
                        || pull.synced_at >= synced_before;
                    &&& final(self).pull_requests@.contains(pull) <==> stays
                    &&& keys@.contains(pull.spec_key()) <==> !stays
                },
            // the keys are of rows there were, in key order
            forall|key: PrKey| #[trigger]
                keys@.contains(key) ==> exists|i: int|
                    0 <= i < old(self).pull_requests.len() && (
                    #[trigger] old(self).pull_requests[i]).repository_id == key.repository_id
                        && old(self).pull_requests[i].number == key.number,
            forall|j: int, k: int|
                0 <= j < k < keys.len() ==> (#[trigger] keys[j]).repository_id < (
                #[trigger] keys[k]).repository_id || (keys[j].repository_id
                    == keys[k].repository_id && keys[j].number < keys[k].number),
            final(self).batches == old(self).batches,
            final(self).running_batches == old(self).running_batches,
            final(self).last_retirement_id == old(self).last_retirement_id + keys.len(),
            // what waited still waits, and each key that went waits behind it
            final(self).retirements.len() == old(self).retirements.len() + keys.len(),
            forall|i: int|
                0 <= i < old(self).retirements.len() ==> #[trigger] final(self).retirements[i]
                    == old(self).retirements[i],
            forall|k: int|
                #![trigger keys[k]]
                0 <= k < keys.len() ==> {
                    let queued = final(self).retirements[old(self).retirements.len() + k];
                    &&& queued.key == keys[k]
                    &&& queued.id == old(self).last_retirement_id + 1 + k
                    &&& queued.synced_before == Some(synced_before)
                },
    {
        let ghost gone = stale_pull(repository_id, live@, synced_before);
        let mut marks: Vec<bool> = Vec::new();
        let mut i: usize = 0;
        while i < self.pull_requests.len()
            invariant
                *self == *old(self),
                i <= self.pull_requests.len(),
                marks.len() == i,
                gone == stale_pull(repository_id, live@, synced_before),
                forall|k: int|
                    0 <= k < i ==> #[trigger] marks[k] == gone(old(self).pull_requests[k]),
            decreases self.pull_requests.len() - i,
        {
            let row: &PrRecord = &self.pull_requests[i];
            marks.push(
                row.repository_id == repository_id && !contains_number(live, row.number)
                    && row.synced_at < synced_before,
            );
            i += 1;
        }
        let keys = self.remove_marked(&marks, Ghost(gone));
        self.queue_retirements(&keys, Some(synced_before));
        proof {
            self.lemma_references_kept(*old(self), gone);
            lemma_pruned(*old(self), *self, gone, Some(synced_before), keys@);
        }
        keys
    }

    /// Dropping pull requests leaves none without its repository.
    proof fn lemma_references_kept(self, before: Tables, gone: spec_fn(PrRecord) -> bool)
        requires
            before.references_hold(),
            self.repositories == before.repositories,
            self.pull_requests@ == before.pull_requests@.filter(other_than(gone)),
        ensures
            self.references_hold(),
    {
        lemma_filter(before.pull_requests@, other_than(gone));
        assert forall|i: int| 0 <= i < self.pull_requests.len() implies has_repo(
            self.repositories@,
            (#[trigger] self.pull_requests[i]).repository_id,
        ) by {
            let row = self.pull_requests@[i];
            assert(self.pull_requests@.contains(row));
            let k = choose|k: int|
                0 <= k < before.pull_requests@.len() && before.pull_requests@[k] == row;
            assert(has_repo(before.repositories@, before.pull_requests[k].repository_id));
        }
    }

    /// The repository's rows at a head, in key order.
    pub fn prs_for_sha(&self, repository_id: u64, sha: &str) -> (rows: Vec<PrRecord>)
        requires
            self.wf(),
        ensures
            ({
                let found = self.pull_requests@.filter(
                    |row: PrRecord| row.repository_id == repository_id && row.head_sha@ == sha@,
                );
                &&& rows.len() == found.len()
                &&& forall|i: int|
                    0 <= i < rows.len() ==> reads_as(
                        self.repositories@,
                        found[i],
                        #[trigger] rows[i],
                    )
            }),
    {
        let ghost at_head = |row: PrRecord|
            row.repository_id == repository_id && row.head_sha@ == sha@;
        let ghost all = self.pull_requests@;
        let mut rows: Vec<PrRecord> = Vec::new();
        let mut i: usize = 0;
        proof {
            reveal(Seq::filter);
            assert(all.take(0).filter(at_head).len() == 0);
        }
        while i < self.pull_requests.len()
            invariant
                self.wf(),
                all == self.pull_requests@,
                i <= all.len(),
                at_head == (|row: PrRecord|
                    row.repository_id == repository_id && row.head_sha@ == sha@),
                rows.len() == all.take(i as int).filter(at_head).len(),
                forall|k: int|
                    0 <= k < rows.len() ==> reads_as(
                        self.repositories@,
                        all.take(i as int).filter(at_head)[k],
                        #[trigger] rows[k],
                    ),
            decreases all.len() - i,
        {
            proof {
                lemma_filter_step(all, i as int, at_head);
            }
            let row: &PrRecord = &self.pull_requests[i];
            assert(has_repo(self.repositories@, self.pull_requests[i as int].repository_id));
            if row.repository_id == repository_id && same_text(row.head_sha.as_str(), sha) {
                rows.push(self.joined(row));
            }
            i += 1;
        }
        assert(all.take(i as int) == all);
        rows
    }

    /// Writes a repository's row, in place of the one it had.
    pub fn upsert_repo(&mut self, repo: RepoRecord)
        requires
            old(self).wf(),
        ensures
            final(self).wf(),
            final(self).pull_requests == old(self).pull_requests,
            final(self).batches == old(self).batches,
            final(self).running_batches == old(self).running_batches,
            final(self).retirements == old(self).retirements,
            final(self).last_retirement_id == old(self).last_retirement_id,
            forall|row: RepoRecord|
                final(self).repositories@.contains(row) <==> row == repo || (
                old(self).repositories@.contains(row) && row.repository_id != repo.repository_id),
    {
        let mut at: usize = 0;
        while at < self.repositories.len() && self.repositories[at].repository_id
            < repo.repository_id
            invariant
                *self == *old(self),
                at <= self.repositories.len(),
                forall|i: int|
                    0 <= i < at ==> (#[trigger] self.repositories[i]).repository_id
                        < repo.repository_id,
            decreases self.repositories.len() - at,
        {
            at += 1;
        }
        let ghost before = self.repositories@;
        let ghost written = repo;
        let replaces = at < self.repositories.len() && self.repositories[at].repository_id
            == repo.repository_id;
        if replaces {
            self.repositories.set(at, repo);
        } else {
            self.repositories.insert(at, repo);
        }
        proof {
            let after = self.repositories@;
            // Where each row of `before` stands in `after`, but for the one replaced.
            let shift = |k: int|
                if replaces || k < at {
                    k
                } else {
                    k + 1
                };
            assert(after[at as int] == written);
            assert forall|i: int, j: int| 0 <= i < j < after.len() implies (
            #[trigger] after[i]).repository_id < (#[trigger] after[j]).repository_id by {
                if replaces {
                    if i != at {
                        assert(after[i] == before[i]);
                    }
                    if j != at {
                        assert(after[j] == before[j]);
                    }
                    assert(before[i].repository_id < before[j].repository_id);
                } else {
                    let a = if i < at {
                        i
                    } else {
                        i - 1
                    };
                    let b = if j < at {
                        j
                    } else {
                        j - 1
                    };
                    if i != at {
                        assert(after[i] == before[a]);
                    }
                    if j != at {
                        assert(after[j] == before[b]);
                    }
                    if i == at {
                        assert(before[at as int].repository_id > written.repository_id);
                        if at < b {
                            assert(before[at as int].repository_id < before[b].repository_id);
                        }
                    }
                }
            }
            assert forall|row: RepoRecord|
                after.contains(row) <==> row == written || (before.contains(row)
                    && row.repository_id != written.repository_id) by {
                if after.contains(row) && row != written {
                    let k = choose|k: int| 0 <= k < after.len() && after[k] == row;
                    let b = if replaces || k < at {
                        k
                    } else {
                        k - 1
                    };
                    assert(before[b] == row);
                    if k < at {
                        assert(after[k].repository_id < after[at as int].repository_id);
                    } else {
                        assert(after[at as int].repository_id < after[k].repository_id);
                    }
                }
                if before.contains(row) && row.repository_id != written.repository_id {
                    let k = choose|k: int| 0 <= k < before.len() && before[k] == row;
                    assert(after[shift(k)] == row);
                }
            }
            assert forall|i: int| 0 <= i < self.pull_requests.len() implies has_repo(
                self.repositories@,
                (#[trigger] self.pull_requests[i]).repository_id,
            ) by {
                let id = self.pull_requests[i].repository_id;
                assert(has_repo(before, old(self).pull_requests[i].repository_id));
                let k = choose|k: int|
                    0 <= k < before.len() && (#[trigger] before[k]).repository_id == id;
                if before[k].repository_id == written.repository_id {
                    assert(after[at as int].repository_id == id);
                } else {
                    assert(after[shift(k)].repository_id == id);
                }
            }
        }
    }

    /// A repository's row.
    pub fn get_repo(&self, repository_id: u64) -> (read: Option<RepoRecord>)
        ensures
            read matches Some(read) ==> self.repositories@.contains(read) && read.repository_id
                == repository_id,
            read is None ==> !has_repo(self.repositories@, repository_id),
    {
        let mut i: usize = 0;
        while i < self.repositories.len()
            invariant
                i <= self.repositories.len(),
                forall|k: int|
                    0 <= k < i ==> (#[trigger] self.repositories@[k]).repository_id
                        != repository_id,
            decreases self.repositories.len() - i,
        {
            if self.repositories[i].repository_id == repository_id {
                let read = self.repositories[i].clone();
                assert(self.repositories@[i as int] == read);
                return Some(read);
            }
            i += 1;
        }
        None
    }

    /// Drops the repositories that `leaves` marks, and their pull requests with them.
    fn drop_marked_repos(
        &mut self,
        marks: &Vec<bool>,
        Ghost(leaves): Ghost<spec_fn(RepoRecord) -> bool>,
        synced_before: Option<u64>,
    ) -> (keys: Vec<PrKey>)
        requires
            old(self).wf(),
            old(self).can_prune(),
            marks.len() == old(self).repositories.len(),
            forall|i: int|
                0 <= i < marks.len() ==> #[trigger] marks[i] == leaves(old(self).repositories[i]),
        ensures
            final(self).wf(),
            final(self).repositories@ == old(self).repositories@.filter(other_than(leaves)),
            final(self).pruned(
                *old(self),
                pull_within(old(self).repositories@, leaves),
                synced_before,
                keys@,
            ),
    {
        let mut ids: Vec<u64> = Vec::new();
        let mut kept: Vec<RepoRecord> = Vec::new();
        let mut i: usize = 0;
        let ghost rows = self.repositories@;
        proof {
            reveal(Seq::filter);
            assert(ids@ =~= ids_of(rows.take(0).filter(leaves)));
            assert(kept@ =~= rows.take(0).filter(other_than(leaves)));
        }
        while i < self.repositories.len()
            invariant
                *self == *old(self),
                rows == self.repositories@,
                i <= rows.len(),
                marks.len() == rows.len(),
                forall|i: int|
                    0 <= i < marks.len() ==> #[trigger] marks[i] == leaves(
                        old(self).repositories[i],
                    ),
                ids@ == ids_of(rows.take(i as int).filter(leaves)),
                kept@ == rows.take(i as int).filter(other_than(leaves)),
            decreases rows.len() - i,
        {
            proof {
                lemma_filter_step(rows, i as int, leaves);
                lemma_filter_step(rows, i as int, other_than(leaves));
            }
            if marks[i] {
                let ghost before = rows.take(i as int).filter(leaves);
                ids.push(self.repositories[i].repository_id);
                assert(ids_of(before.push(rows[i as int])) =~= ids_of(before).push(
                    rows[i as int].repository_id,
                ));
            } else {
                kept.push(self.repositories[i].clone());
            }
            i += 1;
        }
        assert(rows.take(i as int) == rows);
        let keys = self.cascade(&ids, synced_before);
        self.repositories = kept;
        proof {
            lemma_filter_repos_ordered(rows, other_than(leaves));
            lemma_filter(rows, leaves);
            lemma_filter(rows, other_than(leaves));
            let before = old(self).pull_requests@;
            lemma_filter(before, other_than(pull_of(ids@)));
            let gone = rows.filter(leaves);
            assert(pull_of(ids@) =~= pull_within(rows, leaves)) by {
                assert forall|row: PrRecord| #[trigger]
                    pull_of(ids@)(row) == pull_within(rows, leaves)(row) by {
                    if ids@.contains(row.repository_id) {
                        let g = choose|g: int|
                            0 <= g < ids@.len() && ids@[g] == row.repository_id;
                        assert(gone.contains(gone[g]));
                        let r = choose|r: int| 0 <= r < rows.len() && rows[r] == gone[g];
                        assert(rows[r].repository_id == row.repository_id);
                    }
                    if pull_within(rows, leaves)(row) {
                        let r = choose|r: int|
                            0 <= r < rows.len() && (#[trigger] rows[r]).repository_id
                                == row.repository_id && leaves(rows[r]);
                        assert(rows.contains(rows[r]));
                        assert(gone.contains(rows[r]));
                        let g = choose|g: int| 0 <= g < gone.len() && gone[g] == rows[r];
                        assert(ids@[g] == row.repository_id);
                    }
                }
            }
            assert forall|i: int| 0 <= i < self.pull_requests.len() implies has_repo(
                self.repositories@,
                (#[trigger] self.pull_requests[i]).repository_id,
            ) by {
                let row = self.pull_requests@[i];
                assert(self.pull_requests@.contains(row));
                let k = choose|k: int| 0 <= k < before.len() && before[k] == row;
                assert(has_repo(rows, old(self).pull_requests[k].repository_id));
                let r = choose|r: int|
                    0 <= r < rows.len() && (#[trigger] rows[r]).repository_id == row.repository_id;
                if leaves(rows[r]) {
                    assert(rows.contains(rows[r]));
                    assert(gone.contains(rows[r]));
                    let g = choose|g: int| 0 <= g < gone.len() && gone[g] == rows[r];
                    assert(ids@[g] == row.repository_id);
                    assert(ids@.contains(row.repository_id));
                }
                assert(rows.contains(rows[r]));
                assert(self.repositories@.contains(rows[r]));
                let n = choose|n: int|
                    0 <= n < self.repositories@.len() && self.repositories@[n] == rows[r];
                assert(self.repositories@[n].repository_id == row.repository_id);
            }
        }
        keys
    }

    /// Drops the pull requests of some repositories and queues them for retirement.
    fn cascade(&mut self, repository_ids: &Vec<u64>, synced_before: Option<u64>) -> (keys: Vec<
        PrKey,
    >)
        requires
            old(self).wf(),
            old(self).can_prune(),
        ensures
            final(self).wf(),
            final(self).repositories == old(self).repositories,
            final(self).pruned(*old(self), pull_of(repository_ids@), synced_before, keys@),
    {
        let ghost gone = pull_of(repository_ids@);
        let mut marks: Vec<bool> = Vec::new();
        let mut i: usize = 0;
        while i < self.pull_requests.len()
            invariant
                *self == *old(self),
                i <= self.pull_requests.len(),
                marks.len() == i,
                gone == pull_of(repository_ids@),
                forall|k: int|
                    0 <= k < i ==> #[trigger] marks[k] == gone(old(self).pull_requests[k]),
            decreases self.pull_requests.len() - i,
        {
            marks.push(contains_number(repository_ids, self.pull_requests[i].repository_id));
            i += 1;
        }
        let keys = self.remove_marked(&marks, Ghost(gone));
        self.queue_retirements(&keys, synced_before);
        proof {
            self.lemma_references_kept(*old(self), gone);
        }
        keys
    }

    /// Drops the installation's stale repositories and their pull requests, and gives back
    /// the keys of the pull requests, in key order.
    pub fn retain_repos(
        &mut self,
        installation_id: u64,
        live: &Vec<u64>,
        synced_before: u64,
    ) -> (keys: Vec<PrKey>)
        requires
            old(self).wf(),
            old(self).can_prune(),
        ensures
            final(self).wf(),
            final(self).repositories@ == old(self).repositories@.filter(
                other_than(stale_repo(installation_id, live@, synced_before)),
            ),
            final(self).pruned(
                *old(self),
                pull_within(
                    old(self).repositories@,
                    stale_repo(installation_id, live@, synced_before),
                ),
                Some(synced_before),
                keys@,
            ),
            forall|repo: RepoRecord| #[trigger]
                final(self).repositories@.contains(repo) <==> old(self).repositories@.contains(repo)
                    && (repo.installation_id != installation_id || live@.contains(
                    repo.repository_id,
                ) || repo.synced_at >= synced_before),
            forall|pull: PrRecord| #[trigger]
                final(self).pull_requests@.contains(pull) ==> old(self).pull_requests@.contains(
                    pull,
                ),
            forall|repo: RepoRecord, pull: PrRecord|
                #![trigger old(self).repositories@.contains(repo), old(self).pull_requests@.contains(pull)]
                old(self).repositories@.contains(repo) && old(self).pull_requests@.contains(pull)
                    && pull.repository_id == repo.repository_id ==> {
                    let stays = repo.installation_id != installation_id || live@.contains(
                        repo.repository_id,
                    ) || repo.synced_at >= synced_before;
                    &&& final(self).pull_requests@.contains(pull) <==> stays
                    &&& keys@.contains(pull.spec_key()) <==> !stays
                },
            // the keys are of rows there were, in key order
            forall|key: PrKey| #[trigger]
                keys@.contains(key) ==> exists|i: int|
                    0 <= i < old(self).pull_requests.len() && (
                    #[trigger] old(self).pull_requests[i]).repository_id == key.repository_id
                        && old(self).pull_requests[i].number == key.number,
            forall|j: int, k: int|
                0 <= j < k < keys.len() ==> (#[trigger] keys[j]).repository_id < (
                #[trigger] keys[k]).repository_id || (keys[j].repository_id
                    == keys[k].repository_id && keys[j].number < keys[k].number),
            final(self).batches == old(self).batches,
            final(self).running_batches == old(self).running_batches,
            final(self).last_retirement_id == old(self).last_retirement_id + keys.len(),
            // what waited still waits, and each key that went waits behind it
            final(self).retirements.len() == old(self).retirements.len() + keys.len(),
            forall|i: int|
                0 <= i < old(self).retirements.len() ==> #[trigger] final(self).retirements[i]
                    == old(self).retirements[i],
            forall|k: int|
                #![trigger keys[k]]
                0 <= k < keys.len() ==> {
                    let queued = final(self).retirements[old(self).retirements.len() + k];
                    &&& queued.key == keys[k]
                    &&& queued.id == old(self).last_retirement_id + 1 + k
                    &&& queued.synced_before == Some(synced_before)
                },
    {
        let ghost leaves = stale_repo(installation_id, live@, synced_before);
        let mut marks: Vec<bool> = Vec::new();
        let mut i: usize = 0;
        while i < self.repositories.len()
            invariant
                *self == *old(self),
                i <= self.repositories.len(),
                marks.len() == i,
                leaves == stale_repo(installation_id, live@, synced_before),
                forall|k: int|
                    0 <= k < i ==> #[trigger] marks[k] == leaves(old(self).repositories[k]),
            decreases self.repositories.len() - i,
        {
            let row: &RepoRecord = &self.repositories[i];
            marks.push(
                row.installation_id == installation_id && !contains_number(live, row.repository_id)
                    && row.synced_at < synced_before,
            );
            i += 1;
        }
        let keys = self.drop_marked_repos(&marks, Ghost(leaves), Some(synced_before));
        proof {
            lemma_repos_dropped(*old(self), *self, leaves, Some(synced_before), keys@);
        }
        keys
    }

    /// Writes the rows of an installation's listing, then drops its stale repositories and
    /// their pull requests, and gives back the keys of the pull requests, in key order.
    pub fn replace_installation_repos(
        &mut self,
        installation_id: u64,
        repos: &Vec<RepoRecord>,
        synced_before: u64,
    ) -> (keys: Vec<PrKey>)
        requires
            old(self).wf(),
            old(self).can_prune(),
        ensures
            final(self).wf(),
            forall|row: RepoRecord|
                #![trigger final(self).repositories@.contains(row)]
                final(self).repositories@.contains(row) <==> lists_row(repos@, row) || (
                old(self).repositories@.contains(row) && !ids_of(repos@).contains(
                    row.repository_id,
                ) && !stale_repo(installation_id, ids_of(repos@), synced_before)(row)),
            final(self).pruned(
                *old(self),
                pull_within(
                    old(self).repositories@,
                    stale_repo(installation_id, ids_of(repos@), synced_before),
                ),
                Some(synced_before),
                keys@,
            ),
            // the listing's last row for a repository is the repository's row
            forall|i: int|
                #![trigger repos@[i]]
                0 <= i < repos.len() && (forall|j: int|
                    i < j < repos.len() ==> (#[trigger] repos@[j]).repository_id
                        != repos@[i].repository_id) ==> final(self).repositories@.contains(
                    repos@[i],
                ),
            forall|repo: RepoRecord| #[trigger]
                final(self).repositories@.contains(repo) ==> repos@.contains(repo) || old(
                    self,
                ).repositories@.contains(repo),
            // a repository that the listing does not name
            forall|repo: RepoRecord| #[trigger]
                old(self).repositories@.contains(repo) && (forall|i: int|
                    0 <= i < repos.len() ==> (#[trigger] repos@[i]).repository_id
                        != repo.repository_id) ==> (final(self).repositories@.contains(repo) <==> (
                repo.installation_id != installation_id || repo.synced_at >= synced_before)),
            forall|pull: PrRecord| #[trigger]
                final(self).pull_requests@.contains(pull) ==> old(self).pull_requests@.contains(
                    pull,
                ),
            forall|repo: RepoRecord, pull: PrRecord|
                #![trigger old(self).repositories@.contains(repo), old(self).pull_requests@.contains(pull)]
                old(self).repositories@.contains(repo) && old(self).pull_requests@.contains(pull)
                    && pull.repository_id == repo.repository_id ==> {
                    let stays = repo.installation_id != installation_id || repo.synced_at
                        >= synced_before || exists|i: int|
                        0 <= i < repos.len() && (#[trigger] repos@[i]).repository_id
                            == repo.repository_id;
                    &&& final(self).pull_requests@.contains(pull) <==> stays
                    &&& keys@.contains(pull.spec_key()) <==> !stays
                },
            // the keys are of rows there were, in key order
            forall|key: PrKey| #[trigger]
                keys@.contains(key) ==> exists|i: int|
                    0 <= i < old(self).pull_requests.len() && (
                    #[trigger] old(self).pull_requests[i]).repository_id == key.repository_id
                        && old(self).pull_requests[i].number == key.number,
            forall|j: int, k: int|
                0 <= j < k < keys.len() ==> (#[trigger] keys[j]).repository_id < (
                #[trigger] keys[k]).repository_id || (keys[j].repository_id
                    == keys[k].repository_id && keys[j].number < keys[k].number),
            final(self).batches == old(self).batches,
            final(self).running_batches == old(self).running_batches,
            final(self).last_retirement_id == old(self).last_retirement_id + keys.len(),
            // what waited still waits, and each key that went waits behind it
            final(self).retirements.len() == old(self).retirements.len() + keys.len(),
            forall|i: int|
                0 <= i < old(self).retirements.len() ==> #[trigger] final(self).retirements[i]
                    == old(self).retirements[i],
            forall|k: int|
                #![trigger keys[k]]
                0 <= k < keys.len() ==> {
                    let queued = final(self).retirements[old(self).retirements.len() + k];
                    &&& queued.key == keys[k]
                    &&& queued.id == old(self).last_retirement_id + 1 + k
                    &&& queued.synced_before == Some(synced_before)
                },
    {
        let ghost before = self.repositories@;
        let mut live: Vec<u64> = Vec::new();
        let mut i: usize = 0;
        proof {
            assert(live@ =~= ids_of(repos@.take(0)));
            assert forall|row: RepoRecord| !lists_row(repos@.take(0), row) by {}
        }
        while i < repos.len()
            invariant
                i <= repos.len(),
                self.wf(),
                self.pull_requests == old(self).pull_requests,
                self.batches == old(self).batches,
                self.running_batches == old(self).running_batches,
                self.retirements == old(self).retirements,
                self.last_retirement_id == old(self).last_retirement_id,
                live@ == ids_of(repos@.take(i as int)),
                forall|row: RepoRecord|
                    #![trigger self.repositories@.contains(row)]
                    self.repositories@.contains(row) <==> lists_row(repos@.take(i as int), row)
                        || (before.contains(row) && !live@.contains(row.repository_id)),
            decreases repos.len() - i,
        {
            let ghost was = self.repositories@;
            let ghost listed = repos@.take(i as int);
            let ghost named = live@;
            let repo = repos[i].clone();
            self.upsert_repo(repo);
            live.push(repos[i].repository_id);
            proof {
                let now = repos@.take(i + 1);
                assert(now =~= listed.push(repos@[i as int]));
                assert(live@ =~= ids_of(now));
                assert forall|row: RepoRecord|
                    #![trigger self.repositories@.contains(row)]
                    self.repositories@.contains(row) <==> lists_row(now, row) || (before.contains(
                        row,
                    ) && !live@.contains(row.repository_id)) by {
                    lemma_lists_row_push(listed, repos@[i as int], row);
                    assert(was.contains(row) <==> lists_row(listed, row) || (before.contains(row)
                        && !named.contains(row.repository_id)));
                    assert(live@ =~= named.push(repos@[i as int].repository_id));
                    if live@.contains(row.repository_id) {
                        let k = choose|k: int|
                            0 <= k < live@.len() && live@[k] == row.repository_id;
                        if k < named.len() {
                            assert(named[k] == row.repository_id);
                        }
                    }
                    if named.contains(row.repository_id) {
                        let k = choose|k: int|
                            0 <= k < named.len() && named[k] == row.repository_id;
                        assert(live@[k] == row.repository_id);
                    }
                    assert(live@[named.len() as int] == repos@[i as int].repository_id);
                }
            }
            i += 1;
        }
        assert(repos@.take(i as int) == repos@);
        let ghost listed = *self;
        let keys = self.retain_repos(installation_id, &live, synced_before);
        proof {
            let stale = stale_repo(installation_id, live@, synced_before);
            lemma_filter(listed.repositories@, other_than(stale));
            assert forall|row: RepoRecord| lists_row(repos@, row) implies live@.contains(
                row.repository_id,
            ) by {
                let k = choose|k: int|
                    0 <= k < repos@.len() && #[trigger] repos@[k] == row && forall|j: int|
                        k < j < repos@.len() ==> (#[trigger] repos@[j]).repository_id
                            != row.repository_id;
                assert(live@[k] == row.repository_id);
            }
            assert(pull_within(listed.repositories@, stale) =~= pull_within(before, stale)) by {
                assert forall|row: PrRecord| #[trigger]
                    pull_within(listed.repositories@, stale)(row) == pull_within(before, stale)(
                        row,
                    ) by {
                    if pull_within(listed.repositories@, stale)(row) {
                        let r = choose|r: int|
                            0 <= r < listed.repositories@.len() && (
                            #[trigger] listed.repositories@[r]).repository_id == row.repository_id
                                && stale(listed.repositories@[r]);
                        let repo = listed.repositories@[r];
                        assert(listed.repositories@.contains(repo));
                        assert(before.contains(repo));
                        let b = choose|b: int| 0 <= b < before.len() && before[b] == repo;
                        assert(before[b].repository_id == row.repository_id);
                    }
                    if pull_within(before, stale)(row) {
                        let b = choose|b: int|
                            0 <= b < before.len() && (#[trigger] before[b]).repository_id
                                == row.repository_id && stale(before[b]);
                        let repo = before[b];
                        assert(before.contains(repo));
                        assert(listed.repositories@.contains(repo));
                        let r = choose|r: int|
                            0 <= r < listed.repositories@.len() && listed.repositories@[r] == repo;
                        assert(listed.repositories@[r].repository_id == row.repository_id);
                    }
                }
            }
            lemma_pruned(
                *old(self),
                *self,
                pull_within(before, stale),
                Some(synced_before),
                keys@,
            );
            assert forall|id: u64| #[trigger] live@.contains(id) <==> exists|i: int|
                0 <= i < repos@.len() && (#[trigger] repos@[i]).repository_id == id by {
                if live@.contains(id) {
                    let k = choose|k: int| 0 <= k < live@.len() && live@[k] == id;
                    assert(repos@[k].repository_id == id);
                }
                if exists|i: int| 0 <= i < repos@.len() && (#[trigger] repos@[i]).repository_id == id {
                    let k = choose|k: int|
                        0 <= k < repos@.len() && (#[trigger] repos@[k]).repository_id == id;
                    assert(live@[k] == id);
                }
            }
            assert forall|i: int|
                #![trigger repos@[i]]
                0 <= i < repos@.len() && (forall|j: int|
                    i < j < repos@.len() ==> (#[trigger] repos@[j]).repository_id
                        != repos@[i].repository_id) implies self.repositories@.contains(repos@[i]) by {
                assert(lists_row(repos@, repos@[i]));
            }
            assert forall|repo: RepoRecord, pull: PrRecord|
                #![trigger before.contains(repo), old(self).pull_requests@.contains(pull)]
                before.contains(repo) && old(self).pull_requests@.contains(pull)
                    && pull.repository_id == repo.repository_id implies (pull_within(before, stale)(
                pull,
            ) <==> stale(repo)) by {
                lemma_pull_within(before, stale, repo, pull);
            }
        }
        keys
    }

    /// Drops an installation's repositories and their pull requests. No webhook can reopen
    /// them, so they are queued for retirement without a fence.
    pub fn purge_installation(&mut self, installation_id: u64) -> (keys: Vec<PrKey>)
        requires
            old(self).wf(),
            old(self).can_prune(),
        ensures
            final(self).wf(),
            final(self).repositories@ == old(self).repositories@.filter(
                other_than(repo_of(installation_id)),
            ),
            final(self).pruned(
                *old(self),
                pull_within(old(self).repositories@, repo_of(installation_id)),
                None,
                keys@,
            ),
            forall|repo: RepoRecord| #[trigger]
                final(self).repositories@.contains(repo) <==> old(self).repositories@.contains(repo)
                    && repo.installation_id != installation_id,
            forall|pull: PrRecord| #[trigger]
                final(self).pull_requests@.contains(pull) ==> old(self).pull_requests@.contains(
                    pull,
                ),
            forall|repo: RepoRecord, pull: PrRecord|
                #![trigger old(self).repositories@.contains(repo), old(self).pull_requests@.contains(pull)]
                old(self).repositories@.contains(repo) && old(self).pull_requests@.contains(pull)
                    && pull.repository_id == repo.repository_id ==> {
                    let stays = repo.installation_id != installation_id;
                    &&& final(self).pull_requests@.contains(pull) <==> stays
                    &&& keys@.contains(pull.spec_key()) <==> !stays
                },
            // the keys are of rows there were, in key order
            forall|key: PrKey| #[trigger]
                keys@.contains(key) ==> exists|i: int|
                    0 <= i < old(self).pull_requests.len() && (
                    #[trigger] old(self).pull_requests[i]).repository_id == key.repository_id
                        && old(self).pull_requests[i].number == key.number,
            forall|j: int, k: int|
                0 <= j < k < keys.len() ==> (#[trigger] keys[j]).repository_id < (
                #[trigger] keys[k]).repository_id || (keys[j].repository_id
                    == keys[k].repository_id && keys[j].number < keys[k].number),
            final(self).batches == old(self).batches,
            final(self).running_batches == old(self).running_batches,
            final(self).last_retirement_id == old(self).last_retirement_id + keys.len(),
            // what waited still waits, and each key that went waits behind it
            final(self).retirements.len() == old(self).retirements.len() + keys.len(),
            forall|i: int|
                0 <= i < old(self).retirements.len() ==> #[trigger] final(self).retirements[i]
                    == old(self).retirements[i],
            forall|k: int|
                #![trigger keys[k]]
                0 <= k < keys.len() ==> {
                    let queued = final(self).retirements[old(self).retirements.len() + k];
                    &&& queued.key == keys[k]
                    &&& queued.id == old(self).last_retirement_id + 1 + k
                    &&& queued.synced_before is None
                },
    {
        let ghost leaves = repo_of(installation_id);
        let mut marks: Vec<bool> = Vec::new();
        let mut i: usize = 0;
        while i < self.repositories.len()
            invariant
                *self == *old(self),
                i <= self.repositories.len(),
                marks.len() == i,
                leaves == repo_of(installation_id),
                forall|k: int|
                    0 <= k < i ==> #[trigger] marks[k] == leaves(old(self).repositories[k]),
            decreases self.repositories.len() - i,
        {
            marks.push(self.repositories[i].installation_id == installation_id);
            i += 1;
        }
        let keys = self.drop_marked_repos(&marks, Ghost(leaves), None);
        proof {
            lemma_repos_dropped(*old(self), *self, leaves, None, keys@);
        }
        keys
    }

    /// Every retirement not yet acknowledged, oldest first.
    pub fn pending_retirements(&self) -> (pending: Vec<Retirement>)
        ensures
            pending@ == self.retirements@,
    {
        let mut pending: Vec<Retirement> = Vec::new();
        let mut i: usize = 0;
        while i < self.retirements.len()
            invariant
                i <= self.retirements.len(),
                pending@ == self.retirements@.take(i as int),
            decreases self.retirements.len() - i,
        {
            pending.push(self.retirements[i]);
            assert(self.retirements@.take(i + 1) =~= self.retirements@.take(i as int).push(
                self.retirements[i as int],
            ));
            i += 1;
        }
        assert(self.retirements@.take(i as int) == self.retirements@);
        pending
    }

    /// Forgets every retirement up to and including one.
    pub fn acknowledge_retirements(&mut self, through: u64)
        requires
            old(self).wf(),
        ensures
            final(self).wf(),
            final(self).acknowledges(*old(self), through),
            forall|retirement: Retirement| #[trigger]
                final(self).retirements@.contains(retirement) <==> old(
                    self,
                ).retirements@.contains(retirement) && retirement.id > through,
            final(self).pull_requests == old(self).pull_requests,
            final(self).repositories == old(self).repositories,
            final(self).batches == old(self).batches,
            final(self).running_batches == old(self).running_batches,
            final(self).last_retirement_id == old(self).last_retirement_id,
    {
        let ghost waits = waits_after(through);
        let ghost rows = self.retirements@;
        let mut kept: Vec<Retirement> = Vec::new();
        let mut i: usize = 0;
        proof {
            reveal(Seq::filter);
            assert(kept@ =~= rows.take(0).filter(waits));
        }
        while i < self.retirements.len()
            invariant
                *self == *old(self),
                rows == self.retirements@,
                waits == waits_after(through),
                retirements_ordered(rows, self.last_retirement_id),
                i <= rows.len(),
                kept@ == rows.take(i as int).filter(waits),
                retirements_ordered(kept@, self.last_retirement_id),
                kept.len() > 0 ==> i > 0 && kept@.last().id <= rows[i - 1].id,
            decreases rows.len() - i,
        {
            proof {
                lemma_filter_step(rows, i as int, waits);
            }
            if self.retirements[i].id > through {
                kept.push(self.retirements[i]);
            }
            i += 1;
        }
        assert(rows.take(i as int) == rows);
        self.retirements = kept;
        proof {
            lemma_filter(rows, waits);
        }
    }

    /// Records a finished batch, keeping the first record it had, and ends its running
    /// listing.
    pub fn record_batch(&mut self, batch: BatchRecord)
        requires
            old(self).wf(),
        ensures
            final(self).wf(),
            final(self).recorded(*old(self), batch),
            forall|listing: RunningBatch| #[trigger]
                final(self).running_batches@.contains(listing) <==> old(
                    self,
                ).running_batches@.contains(listing) && listing.batch_id@ != batch.batch_id@,
            (exists|i: int|
                0 <= i < old(self).batches.len() && (#[trigger] old(self).batches[i]).batch_id@
                    == batch.batch_id@) ==> final(self).batches@ == old(self).batches@,
            (forall|i: int|
                0 <= i < old(self).batches.len() ==> (#[trigger] old(self).batches[i]).batch_id@
                    != batch.batch_id@) ==> final(self).batches@ == old(self).batches@.push(batch),
            final(self).pull_requests == old(self).pull_requests,
            final(self).repositories == old(self).repositories,
            final(self).retirements == old(self).retirements,
            final(self).last_retirement_id == old(self).last_retirement_id,
    {
        self.unlist_batch(batch.batch_id.as_str());
        if !self.records(batch.batch_id.as_str()) {
            self.batches.push(batch);
        }
    }

    /// Whether a batch has been recorded.
    fn records(&self, batch_id: &str) -> (found: bool)
        ensures
            found == is_recorded(self.batches@, batch_id@),
    {
        let mut i: usize = 0;
        while i < self.batches.len()
            invariant
                i <= self.batches.len(),
                forall|k: int| 0 <= k < i ==> (#[trigger] self.batches@[k]).batch_id@ != batch_id@,
            decreases self.batches.len() - i,
        {
            if same_text(self.batches[i].batch_id.as_str(), batch_id) {
                assert(self.batches@[i as int].batch_id@ == batch_id@);
                return true;
            }
            i += 1;
        }
        false
    }

    /// Whether a batch is listed as running.
    fn lists(&self, batch_id: &str) -> (found: bool)
        ensures
            found == is_listed(self.running_batches@, batch_id@),
    {
        let mut i: usize = 0;
        while i < self.running_batches.len()
            invariant
                i <= self.running_batches.len(),
                forall|k: int|
                    0 <= k < i ==> (#[trigger] self.running_batches@[k]).batch_id@ != batch_id@,
            decreases self.running_batches.len() - i,
        {
            if same_text(self.running_batches[i].batch_id.as_str(), batch_id) {
                assert(self.running_batches@[i as int].batch_id@ == batch_id@);
                return true;
            }
            i += 1;
        }
        false
    }

    /// Lists a batch as running, keeping the first listing it had.
    pub fn start_batch(&mut self, batch: RunningBatch)
        requires
            old(self).wf(),
        ensures
            final(self).wf(),
            final(self).listed(*old(self), batch),
            (exists|i: int|
                0 <= i < old(self).running_batches.len() && (
                #[trigger] old(self).running_batches[i]).batch_id@ == batch.batch_id@)
                ==> final(self).running_batches@ == old(self).running_batches@,
            (forall|i: int|
                0 <= i < old(self).running_batches.len() ==> (
                #[trigger] old(self).running_batches[i]).batch_id@ != batch.batch_id@)
                ==> final(self).running_batches@ == old(self).running_batches@.push(batch),
            final(self).batches == old(self).batches,
            final(self).pull_requests == old(self).pull_requests,
            final(self).repositories == old(self).repositories,
            final(self).retirements == old(self).retirements,
            final(self).last_retirement_id == old(self).last_retirement_id,
    {
        if !self.lists(batch.batch_id.as_str()) {
            self.running_batches.push(batch);
        }
    }

    /// Ends a batch's running listing, if it has one.
    pub fn unlist_batch(&mut self, batch_id: &str)
        requires
            old(self).wf(),
        ensures
            final(self).wf(),
            final(self).same_but_batches(*old(self)),
            final(self).batches == old(self).batches,
            final(self).running_batches@ == old(self).running_batches@.filter(
                other_batches(batch_id@),
            ),
            forall|listing: RunningBatch| #[trigger]
                final(self).running_batches@.contains(listing) <==> old(
                    self,
                ).running_batches@.contains(listing) && listing.batch_id@ != batch_id@,
            final(self).pull_requests == old(self).pull_requests,
            final(self).repositories == old(self).repositories,
            final(self).retirements == old(self).retirements,
            final(self).last_retirement_id == old(self).last_retirement_id,
    {
        proof {
            lemma_filter(self.running_batches@, other_batches(batch_id@));
        }
        let mut i: usize = 0;
        while i < self.running_batches.len()
            invariant
                *self == *old(self),
                self.wf(),
                i <= self.running_batches.len(),
                forall|k: int|
                    0 <= k < i ==> (#[trigger] self.running_batches@[k]).batch_id@ != batch_id@,
            decreases self.running_batches.len() - i,
        {
            if same_text(self.running_batches[i].batch_id.as_str(), batch_id) {
                let ghost before = self.running_batches@;
                self.running_batches.remove(i);
                proof {
                    let others = other_batches(batch_id@);
                    assert forall|k: int| 0 <= k < before.len() implies (others(
                        #[trigger] before[k],
                    ) <==> k != i) by {
                        if k < i {
                            assert(old(self).running_batches[k].batch_id@ != old(
                                self,
                            ).running_batches[i as int].batch_id@);
                        } else if k > i {
                            assert(old(self).running_batches[i as int].batch_id@ != old(
                                self,
                            ).running_batches[k].batch_id@);
                        }
                    }
                    lemma_filter_all_but_one(before, others, i as int);
                    assert(self.running_batches@ == before.remove(i as int));
                    lemma_removal_keeps_batches_apart(before, i as int);
                }
                return;
            }
            i += 1;
        }
        proof {
            lemma_filter_all(self.running_batches@, other_batches(batch_id@));
        }
    }
}

/// A batch has been recorded.
pub open spec fn is_recorded(batches: Seq<BatchRecord>, batch_id: Seq<char>) -> bool {
    exists|i: int| 0 <= i < batches.len() && (#[trigger] batches[i]).batch_id@ == batch_id
}

/// A batch is listed as running.
pub open spec fn is_listed(batches: Seq<RunningBatch>, batch_id: Seq<char>) -> bool {
    exists|i: int| 0 <= i < batches.len() && (#[trigger] batches[i]).batch_id@ == batch_id
}

/// The listings of other batches.
pub open spec fn other_batches(batch_id: Seq<char>) -> spec_fn(RunningBatch) -> bool {
    |batch: RunningBatch| batch.batch_id@ != batch_id
}

/// How a row reads back does not depend on which of the repository's rows it is joined to:
/// there is one.
proof fn lemma_reads_as_one(
    repositories: Seq<RepoRecord>,
    row: PrRecord,
    left: PrRecord,
    right: PrRecord,
)
    requires
        repos_ordered(repositories),
        reads_as(repositories, row, left),
        reads_as(repositories, row, right),
    ensures
        left == right,
{
    let i = choose|i: int|
        0 <= i < repositories.len() && (#[trigger] repositories[i]).repository_id
            == row.repository_id && left == (PrRecord {
            installation_id: repositories[i].installation_id,
            ..row
        });
    let j = choose|j: int|
        0 <= j < repositories.len() && (#[trigger] repositories[j]).repository_id
            == row.repository_id && right == (PrRecord {
            installation_id: repositories[j].installation_id,
            ..row
        });
    if i < j {
        assert(repositories[i].repository_id < repositories[j].repository_id);
    } else if j < i {
        assert(repositories[j].repository_id < repositories[i].repository_id);
    }
}

/// A pull request that has a row reads as that row.
proof fn lemma_get_pr(tables: Tables, row: PrRecord, read: Option<PrRecord>)
    requires
        tables.wf(),
        tables.pull_requests@.contains(row),
        call_ensures(Tables::get_pr, (&tables, row.spec_key()), read),
    ensures
        read matches Some(read) && reads_as(tables.repositories@, row, read),
{
    let rows = tables.pull_requests@;
    let at = choose|at: int| 0 <= at < rows.len() && rows[at] == row;
    if read is None {
        assert(tables.pull_requests[at].spec_key() != row.spec_key());
    } else {
        let i = choose|i: int|
            0 <= i < tables.pull_requests.len() && (#[trigger] tables.pull_requests[i]).spec_key()
                == row.spec_key() && reads_as(
                tables.repositories@,
                tables.pull_requests[i],
                read->0,
            );
        assert(rows[i].spec_key() == rows[at].spec_key());
        if i < at {
            assert(key_before(rows[i].spec_key(), rows[at].spec_key()));
        } else if at < i {
            assert(key_before(rows[at].spec_key(), rows[i].spec_key()));
        }
    }
}

/// A pull request that is written reads back as it was written, under its repository's
/// installation.
pub proof fn law_a_written_row_reads_back(
    before: Tables,
    after: Tables,
    pr: PrRecord,
    read: Option<PrRecord>,
)
    requires
        after.wf(),
        after.wrote(before, pr),
        call_ensures(Tables::get_pr, (&after, pr.spec_key()), read),
    ensures
        read matches Some(read) && reads_as(after.repositories@, pr, read),
{
    assert(after.pull_requests@.contains(pr));
    lemma_get_pr(after, pr, read);
}

/// A pull request that is dropped reads back as nothing.
pub proof fn law_a_dropped_row_is_not_read(
    before: Tables,
    after: Tables,
    key: PrKey,
    read: Option<PrRecord>,
)
    requires
        after.wf(),
        after.dropped(before, key),
        call_ensures(Tables::get_pr, (&after, key), read),
    ensures
        read is None,
{
    if read is Some {
        let i = choose|i: int|
            0 <= i < after.pull_requests.len() && (#[trigger] after.pull_requests[i]).spec_key()
                == key && reads_as(after.repositories@, after.pull_requests[i], read->0);
        assert(after.pull_requests@.contains(after.pull_requests@[i]));
    }
}

/// Writing or dropping one pull request leaves how every other reads.
pub proof fn law_a_write_leaves_other_rows(
    before: Tables,
    after: Tables,
    pr: PrRecord,
    key: PrKey,
    read: Option<PrRecord>,
    read_after: Option<PrRecord>,
)
    requires
        before.wf(),
        after.wf(),
        after.wrote(before, pr) || after.dropped(before, pr.spec_key()),
        key != pr.spec_key(),
        call_ensures(Tables::get_pr, (&before, key), read),
        call_ensures(Tables::get_pr, (&after, key), read_after),
    ensures
        read_after == read,
{
    if read is Some {
        let i = choose|i: int|
            0 <= i < before.pull_requests.len() && (#[trigger] before.pull_requests[i]).spec_key()
                == key && reads_as(before.repositories@, before.pull_requests[i], read->0);
        let row = before.pull_requests@[i];
        assert(before.pull_requests@.contains(row));
        assert(after.pull_requests@.contains(row));
        lemma_get_pr(after, row, read_after);
        lemma_reads_as_one(before.repositories@, row, read->0, read_after->0);
    } else if read_after is Some {
        let i = choose|i: int|
            0 <= i < after.pull_requests.len() && (#[trigger] after.pull_requests[i]).spec_key()
                == key && reads_as(after.repositories@, after.pull_requests[i], read_after->0);
        let row = after.pull_requests@[i];
        assert(after.pull_requests@.contains(row));
        assert(before.pull_requests@.contains(row));
        lemma_get_pr(before, row, read);
    }
}

/// A batch is recorded once: recording it again, whatever with, changes nothing; and once it
/// is recorded it is not listed as running.
pub proof fn law_a_batch_is_recorded_once(
    before: Tables,
    recorded: Tables,
    again: Tables,
    batch: BatchRecord,
    other: BatchRecord,
)
    requires
        recorded.recorded(before, batch),
        other.batch_id@ == batch.batch_id@,
        again.recorded(recorded, other),
    ensures
        is_recorded(recorded.batches@, batch.batch_id@),
        !is_listed(recorded.running_batches@, batch.batch_id@),
        again.batches@ == recorded.batches@,
        again.running_batches@ == recorded.running_batches@,
{
    let others = other_batches(batch.batch_id@);
    if !is_recorded(before.batches@, batch.batch_id@) {
        assert(recorded.batches@[before.batches@.len() as int].batch_id@ == batch.batch_id@);
    }
    let listings = recorded.running_batches@;
    lemma_filter(before.running_batches@, others);
    assert forall|i: int| 0 <= i < listings.len() implies others(#[trigger] listings[i]) by {
        assert(listings.contains(listings[i]));
    }
    lemma_filter_all(listings, others);
}

/// A purge leaves nothing of the installation: none of its repositories has a row, and
/// nothing that is left reads as the installation's.
pub proof fn law_a_purge_leaves_nothing_of_the_installation(
    before: Tables,
    after: Tables,
    installation_id: u64,
    keys: Seq<PrKey>,
    key: PrKey,
    read: Option<PrRecord>,
)
    requires
        before.wf(),
        after.repositories@ == before.repositories@.filter(other_than(repo_of(installation_id))),
        after.pruned(
            before,
            pull_within(before.repositories@, repo_of(installation_id)),
            None,
            keys,
        ),
        call_ensures(Tables::get_pr, (&after, key), read),
    ensures
        forall|i: int|
            0 <= i < after.repositories.len() ==> (
            #[trigger] after.repositories[i]).installation_id != installation_id,
        read matches Some(read) ==> read.installation_id != installation_id,
{
    lemma_filter(before.repositories@, other_than(repo_of(installation_id)));
    assert forall|i: int| 0 <= i < after.repositories@.len() implies (
    #[trigger] after.repositories@[i]).installation_id != installation_id by {
        assert(after.repositories@.contains(after.repositories@[i]));
    }
}

/// A prune removes exactly the rows it is for: all others stay.
pub proof fn law_a_prune_takes_only_what_is_gone(
    before: Tables,
    after: Tables,
    gone: spec_fn(PrRecord) -> bool,
    synced_before: Option<u64>,
    keys: Seq<PrKey>,
    row: PrRecord,
)
    requires
        after.pruned(before, gone, synced_before, keys),
    ensures
        after.pull_requests@.contains(row) <==> before.pull_requests@.contains(row) && !gone(row),
{
    lemma_filter(before.pull_requests@, other_than(gone));
}

/// A repository's prune spares the rows it listed, those synced since the listing started,
/// and those of other repositories.
pub proof fn law_a_listing_spares_what_it_names_and_what_was_synced_since(
    before: Tables,
    after: Tables,
    repository_id: u64,
    live: Seq<u64>,
    synced_before: u64,
    keys: Seq<PrKey>,
    row: PrRecord,
)
    requires
        after.pruned(
            before,
            stale_pull(repository_id, live, synced_before),
            Some(synced_before),
            keys,
        ),
        before.pull_requests@.contains(row),
        live.contains(row.number) || row.synced_at >= synced_before || row.repository_id
            != repository_id,
    ensures
        after.pull_requests@.contains(row),
{
    law_a_prune_takes_only_what_is_gone(
        before,
        after,
        stale_pull(repository_id, live, synced_before),
        Some(synced_before),
        keys,
        row,
    );
}

/// Every prune queues each key it removed, under its fence and a fresh id.
pub proof fn law_every_prune_queues_what_it_removed(
    before: Tables,
    after: Tables,
    gone: spec_fn(PrRecord) -> bool,
    synced_before: Option<u64>,
    keys: Seq<PrKey>,
    row: PrRecord,
)
    requires
        after.pruned(before, gone, synced_before, keys),
        before.pull_requests@.contains(row),
        !after.pull_requests@.contains(row),
    ensures
        keys.contains(row.spec_key()),
        exists|i: int|
            before.retirements.len() <= i < after.retirements.len() && (
            #[trigger] after.retirements[i]).key == row.spec_key()
                && after.retirements[i].synced_before == synced_before && after.retirements[i].id
                > before.last_retirement_id,
{
    law_a_prune_takes_only_what_is_gone(before, after, gone, synced_before, keys, row);
    let removed = before.pull_requests@.filter(gone);
    lemma_filter(before.pull_requests@, gone);
    assert(removed.contains(row));
    let k = choose|k: int| 0 <= k < removed.len() && removed[k] == row;
    assert(keys[k] == row.spec_key());
    let i = before.retirements.len() + k;
    assert(after.retirements@[i] == queued(keys, before.last_retirement_id, synced_before)[k]);
    assert(after.retirements[i].key == row.spec_key());
}

/// A filter keeps everything where everything passes it.
proof fn lemma_filter_all<T>(rows: Seq<T>, pred: spec_fn(T) -> bool)
    requires
        forall|i: int| 0 <= i < rows.len() ==> pred(#[trigger] rows[i]),
    ensures
        rows.filter(pred) == rows,
    decreases rows.len(),
{
    reveal(Seq::filter);
    if rows.len() > 0 {
        lemma_filter_all(rows.drop_last(), pred);
        assert(rows.drop_last().push(rows.last()) =~= rows);
    }
}

/// A filter that a single row fails takes that row out.
proof fn lemma_filter_all_but_one<T>(rows: Seq<T>, pred: spec_fn(T) -> bool, at: int)
    requires
        0 <= at < rows.len(),
        forall|i: int| 0 <= i < rows.len() ==> (pred(#[trigger] rows[i]) <==> i != at),
    ensures
        rows.filter(pred) == rows.remove(at),
    decreases rows.len(),
{
    reveal(Seq::filter);
    let shorter = rows.drop_last();
    if at == rows.len() - 1 {
        lemma_filter_all(shorter, pred);
        assert(rows.remove(at) =~= shorter);
    } else {
        lemma_filter_all_but_one(shorter, pred, at);
        assert(rows.remove(at) =~= shorter.remove(at).push(rows.last()));
    }
}

/// Batches that are apart stay so when one is taken out.
proof fn lemma_removal_keeps_batches_apart(rows: Seq<RunningBatch>, at: int)
    requires
        0 <= at < rows.len(),
        forall|i: int, j: int|
            0 <= i < j < rows.len() ==> (#[trigger] rows[i]).batch_id@ != (
            #[trigger] rows[j]).batch_id@,
    ensures
        forall|i: int, j: int|
            0 <= i < j < rows.remove(at).len() ==> (#[trigger] rows.remove(at)[i]).batch_id@ != (
            #[trigger] rows.remove(at)[j]).batch_id@,
{
    let after = rows.remove(at);
    assert forall|i: int, j: int| 0 <= i < j < after.len() implies (
    #[trigger] after[i]).batch_id@ != (#[trigger] after[j]).batch_id@ by {
        let a = if i < at {
            i
        } else {
            i + 1
        };
        let b = if j < at {
            j
        } else {
            j + 1
        };
        assert(after[i] == rows[a] && after[j] == rows[b]);
    }
}

/// A filter keeps nothing where nothing passes it.
pub proof fn lemma_filter_none(queue: Seq<Retirement>, pred: spec_fn(Retirement) -> bool)
    requires
        forall|i: int| 0 <= i < queue.len() ==> !pred(#[trigger] queue[i]),
    ensures
        queue.filter(pred).len() == 0,
    decreases queue.len(),
{
    reveal(Seq::filter);
    if queue.len() > 0 {
        lemma_filter_none(queue.drop_last(), pred);
    }
}

/// Acknowledging what was read spares what was queued after the read, and nothing else.
pub proof fn law_an_acknowledgement_spares_what_was_queued_after_the_read(
    read: Tables,
    pruned: Tables,
    acknowledged: Tables,
    gone: spec_fn(PrRecord) -> bool,
    synced_before: Option<u64>,
    keys: Seq<PrKey>,
)
    requires
        read.wf(),
        read.retirements.len() > 0,
        pruned.wf(),
        pruned.pruned(read, gone, synced_before, keys),
        acknowledged.acknowledges(pruned, read.retirements@.last().id),
    ensures
        acknowledged.retirements@ == queued(keys, read.last_retirement_id, synced_before),
{
    let through = read.retirements@.last().id;
    let waits = waits_after(through);
    let later = queued(keys, read.last_retirement_id, synced_before);
    assert forall|i: int| 0 <= i < read.retirements@.len() implies !waits(
        #[trigger] read.retirements@[i],
    ) by {
        if i < read.retirements@.len() - 1 {
            assert(read.retirements@[i].id < read.retirements@[read.retirements@.len() - 1].id);
        }
    }
    assert forall|i: int| 0 <= i < later.len() implies waits(#[trigger] later[i]) by {
        assert(pruned.retirements@[read.retirements@.len() + i] == later[i]);
        assert(pruned.retirements@[read.retirements@.len() - 1] == read.retirements@.last());
    }
    Seq::filter_distributes_over_add(read.retirements@, later, waits);
    lemma_filter_none(read.retirements@, waits);
    lemma_filter_all(later, waits);
    assert(acknowledged.retirements@ =~= later);
}

/// A pull request reads back as its row, field by field, under the installation that its
/// repository's row has, whatever installation it was written with.
pub proof fn law_a_pull_request_reads_as_its_row_under_its_repositorys_installation(
    tables: Tables,
    row: PrRecord,
    repo: RepoRecord,
    read: Option<PrRecord>,
)
    requires
        tables.wf(),
        tables.pull_requests@.contains(row),
        tables.repositories@.contains(repo),
        repo.repository_id == row.repository_id,
        call_ensures(
            Tables::get_pr,
            (&tables, PrKey { repository_id: row.repository_id, number: row.number }),
            read,
        ),
    ensures
        read == Some(PrRecord { installation_id: repo.installation_id, ..row }),
{
    lemma_get_pr(tables, row, read);
    let repositories = tables.repositories@;
    let at = choose|at: int| 0 <= at < repositories.len() && repositories[at] == repo;
    assert(repositories[at].repository_id == row.repository_id);
    let expected = PrRecord { installation_id: repo.installation_id, ..row };
    assert(reads_as(repositories, row, expected));
    lemma_reads_as_one(repositories, row, read->0, expected);
}

/// A pull request that no row is of reads as nothing.
pub proof fn law_a_pull_request_without_a_row_reads_as_nothing(
    tables: Tables,
    key: PrKey,
    read: Option<PrRecord>,
)
    requires
        tables.wf(),
        forall|i: int|
            0 <= i < tables.pull_requests.len() ==> (
            #[trigger] tables.pull_requests[i]).repository_id != key.repository_id
                || tables.pull_requests[i].number != key.number,
        call_ensures(Tables::get_pr, (&tables, key), read),
    ensures
        read is None,
{
}

/// The rows at a head are the repository's rows with that very head, each under its
/// repository's installation, in order of their numbers.
pub proof fn law_the_rows_at_a_head(
    tables: Tables,
    repository_id: u64,
    sha: &str,
    repo: RepoRecord,
    rows: Vec<PrRecord>,
)
    requires
        tables.wf(),
        tables.repositories@.contains(repo),
        repo.repository_id == repository_id,
        call_ensures(Tables::prs_for_sha, (&tables, repository_id, sha), rows),
    ensures
        forall|i: int|
            0 <= i < rows.len() ==> (#[trigger] rows[i]).repository_id == repository_id
                && rows[i].head_sha@ == sha@ && rows[i].installation_id == repo.installation_id,
        forall|read: PrRecord| #[trigger]
            rows@.contains(read) ==> exists|k: int|
                0 <= k < tables.pull_requests.len() && read == (PrRecord {
                    installation_id: repo.installation_id,
                    ..#[trigger] tables.pull_requests[k]
                }),
        forall|row: PrRecord| #[trigger]
            tables.pull_requests@.contains(row) && row.repository_id == repository_id
                && row.head_sha@ == sha@ ==> rows@.contains(
                PrRecord { installation_id: repo.installation_id, ..row },
            ),
        forall|i: int, j: int|
            0 <= i < j < rows.len() ==> (#[trigger] rows[i]).number < (#[trigger] rows[j]).number,
{
    let at_head = |row: PrRecord| row.repository_id == repository_id && row.head_sha@ == sha@;
    let all = tables.pull_requests@;
    let repositories = tables.repositories@;
    let found = all.filter(at_head);
    lemma_filter(all, at_head);
    lemma_filter_pulls_ordered(all, at_head);
    let at = choose|at: int| 0 <= at < repositories.len() && repositories[at] == repo;
    assert forall|i: int| 0 <= i < rows.len() implies all.contains(found[i])
        && found[i].repository_id == repository_id && found[i].head_sha@ == sha@
        && #[trigger] rows[i] == (PrRecord { installation_id: repo.installation_id, ..found[i] }) by {
        assert(found.contains(found[i]));
        assert(repositories[at].repository_id == found[i].repository_id);
        let expected = PrRecord { installation_id: repo.installation_id, ..found[i] };
        assert(reads_as(repositories, found[i], expected));
        lemma_reads_as_one(repositories, found[i], rows[i], expected);
    }
    assert forall|read: PrRecord| #[trigger] rows@.contains(read) implies exists|k: int|
        0 <= k < tables.pull_requests.len() && read == (PrRecord {
            installation_id: repo.installation_id,
            ..#[trigger] tables.pull_requests[k]
        }) by {
        let i = choose|i: int| 0 <= i < rows@.len() && rows@[i] == read;
        assert(rows[i] == read);
        assert(all.contains(found[i]));
        let k = choose|k: int| 0 <= k < all.len() && all[k] == found[i];
        assert(tables.pull_requests[k] == found[i]);
    }
    assert forall|row: PrRecord| #[trigger]
        all.contains(row) && row.repository_id == repository_id && row.head_sha@
            == sha@ implies rows@.contains(
        PrRecord { installation_id: repo.installation_id, ..row },
    ) by {
        assert(found.contains(row));
        let i = choose|i: int| 0 <= i < found.len() && found[i] == row;
        assert(rows[i] == (PrRecord { installation_id: repo.installation_id, ..found[i] }));
        assert(rows@[i] == rows[i]);
    }
    assert forall|i: int, j: int| 0 <= i < j < rows.len() implies (#[trigger] rows[i]).number < (
    #[trigger] rows[j]).number by {
        assert(key_before(found[i].spec_key(), found[j].spec_key()));
    }
}

/// A repository that has a row reads as that row, and one that has none as nothing.
pub proof fn law_a_repository_reads_as_its_row(
    tables: Tables,
    repository_id: u64,
    read: Option<RepoRecord>,
)
    requires
        tables.wf(),
        call_ensures(Tables::get_repo, (&tables, repository_id), read),
    ensures
        forall|repo: RepoRecord| #[trigger]
            tables.repositories@.contains(repo) && repo.repository_id == repository_id ==> read
                == Some(repo),
        read matches Some(repo) ==> tables.repositories@.contains(repo) && repo.repository_id
            == repository_id,
{
    let rows = tables.repositories@;
    assert forall|repo: RepoRecord| #[trigger]
        rows.contains(repo) && repo.repository_id == repository_id implies read == Some(repo) by {
        let i = choose|i: int| 0 <= i < rows.len() && rows[i] == repo;
        assert(has_repo(rows, repository_id));
        let j = choose|j: int| 0 <= j < rows.len() && rows[j] == read->0;
        if i < j {
            assert(rows[i].repository_id < rows[j].repository_id);
        } else if j < i {
            assert(rows[j].repository_id < rows[i].repository_id);
        }
    }
}

/// A listing of an installation leaves the others alone: a repository of another installation
/// stays, and so does every pull request of it, and no retirement is queued for any of them.
pub proof fn law_a_prune_leaves_other_installations_alone(
    before: Tables,
    after: Tables,
    installation_id: u64,
    live: Seq<u64>,
    synced_before: u64,
    keys: Seq<PrKey>,
    repo: RepoRecord,
    pull: PrRecord,
)
    requires
        before.wf(),
        after.repositories@ == before.repositories@.filter(
            other_than(stale_repo(installation_id, live, synced_before)),
        ),
        after.pruned(
            before,
            pull_within(before.repositories@, stale_repo(installation_id, live, synced_before)),
            Some(synced_before),
            keys,
        ),
        before.repositories@.contains(repo),
        repo.installation_id != installation_id,
        before.pull_requests@.contains(pull),
        pull.repository_id == repo.repository_id,
    ensures
        after.repositories@.contains(repo),
        after.pull_requests@.contains(pull),
        forall|i: int|
            before.retirements.len() <= i < after.retirements.len() ==> (
            #[trigger] after.retirements[i]).key.repository_id != repo.repository_id,
{
    let leaves = stale_repo(installation_id, live, synced_before);
    lemma_repos_dropped(before, after, leaves, Some(synced_before), keys);
    assert forall|i: int| before.retirements.len() <= i < after.retirements.len() implies (
    #[trigger] after.retirements[i]).key.repository_id != repo.repository_id by {
        let k = i - before.retirements.len();
        assert(after.retirements[before.retirements.len() + k].key == keys[k]);
        if keys[k].repository_id == repo.repository_id {
            assert(keys.contains(keys[k]));
            let at = choose|at: int|
                0 <= at < before.pull_requests.len() && (
                #[trigger] before.pull_requests[at]).repository_id == keys[k].repository_id
                    && before.pull_requests[at].number == keys[k].number;
            let row = before.pull_requests@[at];
            assert(before.pull_requests@.contains(row));
            assert(row.spec_key() == keys[k]);
            assert(keys.contains(row.spec_key()));
        }
    }
}

/// A purge leaves the other installations alone too.
pub proof fn law_a_purge_leaves_other_installations_alone(
    before: Tables,
    after: Tables,
    installation_id: u64,
    keys: Seq<PrKey>,
    repo: RepoRecord,
    pull: PrRecord,
)
    requires
        before.wf(),
        after.repositories@ == before.repositories@.filter(other_than(repo_of(installation_id))),
        after.pruned(
            before,
            pull_within(before.repositories@, repo_of(installation_id)),
            None,
            keys,
        ),
        before.repositories@.contains(repo),
        before.pull_requests@.contains(pull),
        pull.repository_id == repo.repository_id,
    ensures
        after.repositories@.contains(repo) <==> repo.installation_id != installation_id,
        after.pull_requests@.contains(pull) <==> repo.installation_id != installation_id,
        keys.contains(pull.spec_key()) <==> repo.installation_id == installation_id,
{
    lemma_repos_dropped(before, after, repo_of(installation_id), None, keys);
}

} // verus!
