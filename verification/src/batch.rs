//! The life of one batch: what is sent in which round, what is noted as outcomes land, and
//! what is left to record once every target has settled.
//!
//! [`BatchRun`] decides; whoever runs it carries out each [`BatchStep`], hands back what
//! landed, and publishes the progress after each change.

use vstd::arithmetic::div_mod::{
    lemma_fundamental_div_mod, lemma_fundamental_div_mod_converse,
};
use vstd::prelude::*;

use crate::model::{clone_text, ActionOutcome, BulkActionKind, BulkRequest, PrTarget};
use crate::progress::{
    all_settled, batch_targets, is_settled, landed_state, law_the_tally_counts_the_targets,
    law_the_tally_of_a_finished_batch_is_its_size, lemma_place_of, lemma_with_state, records,
    with_state,
    BatchProgress, BatchRecord, RunningBatch, TargetOutcome, TargetProgress, TargetProgressState,
};
use crate::rounds::{
    as_positions, law_a_repository_keeps_its_batch_order,
    law_a_round_holds_one_target_of_a_repository, law_every_target_lands_in_exactly_one_round,
    law_rounds_are_bounded_and_never_empty, law_targets_go_out_turn_by_turn, merge_rounds, places,
    plan_rounds,
};

verus! {

/// How many pull requests one merge or branch-update round sends to GitHub at once.
pub const MAX_CONCURRENT: usize = 3;

/// How long a rebase batch waits between two comments, in milliseconds, so a run of them
/// does not trip GitHub's secondary rate limit on content creation.
pub const COMMENT_SPACING_MILLIS: u64 = 350;

/// How long a finished batch's record may go unwritten, in seconds, before its failed
/// attempts are logged.
pub const RECORD_PENDING_QUIETLY_SECONDS: u64 = 30;

pub open spec fn repository_ids(targets: Seq<PrTarget>) -> Seq<u64> {
    targets.map_values(|target: PrTarget| target.repository_id)
}

/// The targets at some positions of a batch.
pub open spec fn targets_at(targets: Seq<PrTarget>, places: Seq<int>) -> Seq<PrTarget> {
    places.map_values(|place: int| targets[place])
}

/// Positions taken `size` at a time, in batch order.
pub open spec fn chunk(n: nat, size: nat, r: int) -> Seq<int> {
    Seq::new(
        (if (r + 1) * size <= n {
            size as int
        } else {
            n - r * size
        }) as nat,
        |j: int| r * size + j,
    )
}

pub open spec fn chunks(n: nat, size: nat) -> Seq<Seq<int>> {
    Seq::new((n + size - 1) as nat / size, |r: int| chunk(n, size, r))
}

/// The rounds a batch goes out in. Merges take turns by repository; branch updates move
/// nothing under one another and go out in batch order; rebases go one at a time.
pub open spec fn batch_rounds(action: BulkActionKind, ids: Seq<u64>) -> Seq<Seq<int>> {
    match action {
        BulkActionKind::Merge => merge_rounds(ids, MAX_CONCURRENT as nat),
        BulkActionKind::UpdateBranch => chunks(ids.len(), MAX_CONCURRENT as nat),
        BulkActionKind::Rebase => chunks(ids.len(), 1),
    }
}

fn collect_ids(targets: &Vec<PrTarget>) -> (ids: Vec<u64>)
    ensures
        ids@ == repository_ids(targets@),
{
    let mut ids: Vec<u64> = Vec::new();
    let mut i: usize = 0;
    while i < targets.len()
        invariant
            i <= targets.len(),
            ids@ == repository_ids(targets@.take(i as int)),
        decreases targets.len() - i,
    {
        ids.push(targets[i].repository_id);
        assert(repository_ids(targets@.take(i + 1)) =~= repository_ids(
            targets@.take(i as int),
        ).push(targets[i as int].repository_id));
        i += 1;
    }
    assert(targets@.take(i as int) == targets@);
    ids
}

fn collect_targets(targets: &Vec<PrTarget>, round: &Vec<usize>) -> (picked: Vec<PrTarget>)
    requires
        forall|j: int| 0 <= j < round.len() ==> (#[trigger] round[j]) < targets.len(),
    ensures
        picked@ == targets_at(targets@, places(round@)),
{
    let mut picked: Vec<PrTarget> = Vec::new();
    let mut j: usize = 0;
    while j < round.len()
        invariant
            j <= round.len(),
            picked.len() == j,
            forall|j: int| 0 <= j < round.len() ==> (#[trigger] round[j]) < targets.len(),
            forall|k: int| 0 <= k < j ==> picked[k] == targets[round[k] as int],
        decreases round.len() - j,
    {
        let place: usize = round[j];
        picked.push(targets[place].clone());
        j += 1;
    }
    assert(picked@ =~= targets_at(targets@, places(round@)));
    picked
}

/// Splits a merge batch into the rounds that go out together: no two pull requests of one
/// repository in a round, at most `max_concurrent` to a round, the repositories taking turns
/// in the order the batch first names them.
pub fn plan_merge_rounds(targets: &Vec<PrTarget>, max_concurrent: usize) -> (rounds: Vec<
    Vec<PrTarget>,
>)
    requires
        max_concurrent > 0,
    ensures
        rounds.len() == merge_rounds(repository_ids(targets@), max_concurrent as nat).len(),
        forall|r: int|
            0 <= r < rounds.len() ==> (#[trigger] rounds[r])@ == targets_at(
                targets@,
                merge_rounds(repository_ids(targets@), max_concurrent as nat)[r],
            ),
        forall|r: int|
            0 <= r < rounds.len() ==> 1 <= (#[trigger] rounds[r]).len() <= max_concurrent,
        forall|r: int, j: int, k: int|
            #![trigger rounds[r][j], rounds[r][k]]
            0 <= r < rounds.len() && 0 <= j < k < rounds[r].len() ==> rounds[r][j].repository_id
                != rounds[r][k].repository_id,
        forall|i: int|
            0 <= i < targets.len() ==> exists|r: int, j: int|
                0 <= r < rounds.len() && 0 <= j < rounds[r].len() && #[trigger] rounds[r][j]
                    == #[trigger] targets[i],
{
    let ids = collect_ids(targets);
    let plan = plan_rounds(&ids, max_concurrent);
    let ghost spec_plan = merge_rounds(ids@, max_concurrent as nat);
    proof {
        lemma_merge_partition(ids@, max_concurrent as nat);
    }
    let mut rounds: Vec<Vec<PrTarget>> = Vec::new();
    let mut r: usize = 0;
    while r < plan.len()
        invariant
            r <= plan.len(),
            rounds.len() == r,
            ids@ == repository_ids(targets@),
            spec_plan == as_positions(plan@),
            partitions(spec_plan, ids@.len()),
            forall|k: int|
                0 <= k < r ==> (#[trigger] rounds[k])@ == targets_at(targets@, spec_plan[k]),
        decreases plan.len() - r,
    {
        assert(spec_plan[r as int] == places(plan[r as int]@));
        assert forall|j: int| 0 <= j < plan[r as int].len() implies (
        #[trigger] plan[r as int][j]) < targets.len() by {
            assert(spec_plan[r as int][j] == plan[r as int][j]);
        }
        rounds.push(collect_targets(targets, &plan[r]));
        r += 1;
    }
    proof {
        let bound = max_concurrent as nat;
        assert forall|r: int| 0 <= r < rounds.len() implies 1 <= (#[trigger] rounds[r]).len()
            <= max_concurrent by {
            law_rounds_are_bounded_and_never_empty(ids@, bound, r);
            assert(rounds[r]@.len() == spec_plan[r].len());
        }
        assert forall|r: int, j: int, k: int|
            #![trigger rounds[r][j], rounds[r][k]]
            0 <= r < rounds.len() && 0 <= j < k < rounds[r].len() implies rounds[r][j].repository_id
            != rounds[r][k].repository_id by {
            assert(rounds[r]@ == targets_at(targets@, spec_plan[r]));
            law_a_round_holds_one_target_of_a_repository(ids@, bound, r, j, k);
            assert(0 <= spec_plan[r][j] < ids@.len() && 0 <= spec_plan[r][k] < ids@.len());
            assert(rounds[r]@[j] == targets@[spec_plan[r][j]]);
            assert(rounds[r]@[k] == targets@[spec_plan[r][k]]);
        }
        assert forall|i: int| 0 <= i < targets.len() implies exists|r: int, j: int|
            0 <= r < rounds.len() && 0 <= j < rounds[r].len() && #[trigger] rounds[r][j]
                == #[trigger] targets[i] by {
            assert(stands_in(spec_plan, i));
            let (r, j) = choose|r: int, j: int|
                0 <= r < spec_plan.len() && 0 <= j < spec_plan[r].len()
                    && #[trigger] spec_plan[r][j] == i;
            assert(rounds[r]@ == targets_at(targets@, spec_plan[r]));
            assert(rounds[r]@[j] == targets@[i]);
            assert(rounds[r][j] == targets[i]);
        }
    }
    rounds
}

/// Every position below `n` stands in exactly one place of exactly one round, and nothing
/// else does.
pub open spec fn partitions(rounds: Seq<Seq<int>>, n: nat) -> bool {
    &&& forall|r: int, j: int|
        0 <= r < rounds.len() && 0 <= j < rounds[r].len() ==> 0 <= #[trigger] rounds[r][j] < n
    &&& forall|r: int, j: int, s: int, k: int|
        0 <= r < rounds.len() && 0 <= j < rounds[r].len() && 0 <= s < rounds.len() && 0 <= k
            < rounds[s].len() && #[trigger] rounds[r][j] == #[trigger] rounds[s][k] ==> r == s && j
            == k
    &&& forall|p: int| 0 <= p < n ==> #[trigger] stands_in(rounds, p)
}

/// A position stands in some round.
pub open spec fn stands_in(rounds: Seq<Seq<int>>, p: int) -> bool {
    exists|r: int, j: int|
        0 <= r < rounds.len() && 0 <= j < rounds[r].len() && #[trigger] rounds[r][j] == p
}

/// Where round `r` begins in the rounds laid end to end.
spec fn offset(rounds: Seq<Seq<int>>, r: int) -> int
    decreases r,
{
    if r <= 0 {
        0
    } else {
        offset(rounds, r - 1) + rounds[r - 1].len()
    }
}

proof fn lemma_offset_step(rounds: Seq<Seq<int>>, r: int)
    requires
        0 <= r < rounds.len(),
    ensures
        offset(rounds, r + 1) == rounds[0].len() + offset(rounds.drop_first(), r),
    decreases r,
{
    if r > 0 {
        lemma_offset_step(rounds, r - 1);
        assert(rounds.drop_first()[r - 1] == rounds[r]);
    } else {
        assert(offset(rounds, 1) == offset(rounds, 0) + rounds[0].len());
    }
}

proof fn lemma_flatten_at(rounds: Seq<Seq<int>>, r: int, j: int)
    requires
        0 <= r < rounds.len(),
        0 <= j < rounds[r].len(),
    ensures
        0 <= offset(rounds, r) + j < rounds.flatten().len(),
        rounds.flatten()[offset(rounds, r) + j] == rounds[r][j],
    decreases r,
{
    let rest = rounds.drop_first();
    assert(rounds.flatten() == rounds.first() + rest.flatten());
    if r > 0 {
        assert(rest[r - 1] == rounds[r]);
        lemma_flatten_at(rest, r - 1, j);
        lemma_offset_step(rounds, r - 1);
    }
}

proof fn lemma_offset_monotone(rounds: Seq<Seq<int>>, r: int, s: int)
    requires
        0 <= r < s,
    ensures
        offset(rounds, r) + rounds[r].len() <= offset(rounds, s),
    decreases s,
{
    if r < s - 1 {
        lemma_offset_monotone(rounds, r, s - 1);
    }
}

proof fn lemma_flatten_has(rounds: Seq<Seq<int>>, p: int)
    requires
        rounds.flatten().contains(p),
    ensures
        stands_in(rounds, p),
    decreases rounds.len(),
{
    if rounds.len() > 0 {
        let rest = rounds.drop_first();
        let flat = rounds.flatten();
        assert(flat == rounds.first() + rest.flatten());
        let k = choose|k: int| 0 <= k < flat.len() && flat[k] == p;
        if k < rounds[0].len() {
            assert(rounds[0][k] == p);
        } else {
            assert(rest.flatten()[k - rounds[0].len()] == p);
            lemma_flatten_has(rest, p);
            let (r, j) = choose|r: int, j: int|
                0 <= r < rest.len() && 0 <= j < rest[r].len() && #[trigger] rest[r][j] == p;
            assert(rounds[r + 1][j] == p);
        }
    }
}

proof fn lemma_merge_partition(ids: Seq<u64>, bound: nat)
    requires
        bound > 0,
    ensures
        partitions(merge_rounds(ids, bound), ids.len()),
{
    let rounds = merge_rounds(ids, bound);
    let flat = rounds.flatten();
    law_every_target_lands_in_exactly_one_round(ids, bound);
    assert forall|r: int, j: int| 0 <= r < rounds.len() && 0 <= j < rounds[r].len() implies 0
        <= #[trigger] rounds[r][j] < ids.len() by {
        lemma_flatten_at(rounds, r, j);
        assert(flat.contains(rounds[r][j]));
    }
    assert forall|r: int, j: int, s: int, k: int|
        0 <= r < rounds.len() && 0 <= j < rounds[r].len() && 0 <= s < rounds.len() && 0 <= k
            < rounds[s].len() && #[trigger] rounds[r][j] == #[trigger] rounds[s][k] implies r == s
        && j == k by {
        lemma_flatten_at(rounds, r, j);
        lemma_flatten_at(rounds, s, k);
        if r < s {
            lemma_offset_monotone(rounds, r, s);
        } else if s < r {
            lemma_offset_monotone(rounds, s, r);
        }
    }
    assert forall|p: int| 0 <= p < ids.len() implies #[trigger] stands_in(rounds, p) by {
        assert(flat.contains(p));
        lemma_flatten_has(rounds, p);
    }
}

proof fn lemma_chunk_count(n: nat, size: nat)
    requires
        size > 0,
    ensures
        chunks(n, size).len() * size >= n,
        chunks(n, size).len() * size < n + size,
{
    let total = (n + size - 1) as int;
    lemma_fundamental_div_mod(total, size as int);
    let count = total / (size as int);
    assert(chunks(n, size).len() == count);
    assert(count * size >= n && count * size < n + size) by (nonlinear_arith)
        requires
            total == size * count + total % (size as int),
            0 <= total % (size as int) < size,
            total == n + size - 1,
    ;
}

proof fn lemma_chunk_partition(n: nat, size: nat)
    requires
        size > 0,
    ensures
        partitions(chunks(n, size), n),
{
    let rounds = chunks(n, size);
    lemma_chunk_count(n, size);
    assert forall|r: int, j: int| 0 <= r < rounds.len() && 0 <= j < rounds[r].len() implies 0
        <= #[trigger] rounds[r][j] < n && j < size by {
        assert(0 <= r * size) by (nonlinear_arith)
            requires
                0 <= r,
        ;
        assert((r + 1) * size == r * size + size) by (nonlinear_arith);
        assert(r * size <= (rounds.len() - 1) * size) by (nonlinear_arith)
            requires
                r <= rounds.len() - 1,
        ;
        assert((rounds.len() - 1) * size == rounds.len() * size - size) by (nonlinear_arith);
    }
    assert forall|r: int, j: int, s: int, k: int|
        0 <= r < rounds.len() && 0 <= j < rounds[r].len() && 0 <= s < rounds.len() && 0 <= k
            < rounds[s].len() && #[trigger] rounds[r][j] == #[trigger] rounds[s][k] implies r == s
        && j == k by {
        assert(j < size && k < size) by {
            assert(0 <= rounds[r][j] < n);
            assert(0 <= rounds[s][k] < n);
        }
        lemma_fundamental_div_mod_converse(r * size + j, size as int, r, j);
        lemma_fundamental_div_mod_converse(s * size + k, size as int, s, k);
    }
    assert forall|p: int| 0 <= p < n implies #[trigger] stands_in(rounds, p) by {
        lemma_fundamental_div_mod(p, size as int);
        let r = p / (size as int);
        let j = p % (size as int);
        assert(r >= 0 && r < rounds.len()) by (nonlinear_arith)
            requires
                p == size * r + j,
                0 <= j < size,
                0 <= p < n,
                rounds.len() * size >= n,
        ;
        assert(size * r == r * size) by (nonlinear_arith);
        assert((r + 1) * size == r * size + size) by (nonlinear_arith);
        assert(rounds[r][j] == p);
    }
}

pub proof fn law_a_batchs_rounds_hold_every_target_once(action: BulkActionKind, ids: Seq<u64>)
    ensures
        partitions(batch_rounds(action, ids), ids.len()),
{
    match action {
        BulkActionKind::Merge => lemma_merge_partition(ids, MAX_CONCURRENT as nat),
        BulkActionKind::UpdateBranch => lemma_chunk_partition(ids.len(), MAX_CONCURRENT as nat),
        BulkActionKind::Rebase => lemma_chunk_partition(ids.len(), 1),
    }
}

fn plan_chunks(n: usize, size: usize) -> (rounds: Vec<Vec<usize>>)
    requires
        size > 0,
    ensures
        as_positions(rounds@) == chunks(n as nat, size as nat),
{
    let mut rounds: Vec<Vec<usize>> = Vec::new();
    let mut start: usize = 0;
    let ghost all = chunks(n as nat, size as nat);
    proof {
        lemma_chunk_count(n as nat, size as nat);
        assert(0 * size == 0) by (nonlinear_arith);
    }
    proof {
        if n == 0 {
            assert(all.len() == 0) by (nonlinear_arith)
                requires
                    all.len() * size < size,
            ;
        }
    }
    while start < n
        invariant
            size > 0,
            start <= n,
            all == chunks(n as nat, size as nat),
            all.len() * size >= n,
            all.len() * size < n + size,
            start == n ==> rounds.len() == all.len(),
            start < n ==> start == rounds.len() * size,
            rounds.len() <= all.len(),
            forall|r: int| 0 <= r < rounds.len() ==> places(#[trigger] rounds[r]@) == all[r],
        decreases n - start,
    {
        let ghost r = rounds.len() as int;
        assert(r < all.len()) by (nonlinear_arith)
            requires
                r * size < n,
                all.len() * size >= n,
        ;
        assert((r + 1) * size == r * size + size) by (nonlinear_arith);
        let end: usize = if n - start < size {
            n
        } else {
            start + size
        };
        let mut round: Vec<usize> = Vec::new();
        let mut place: usize = start;
        while place < end
            invariant
                start <= place <= end,
                places(round@) == Seq::new((place - start) as nat, |j: int| start + j),
            decreases end - place,
        {
            let ghost before = round@;
            round.push(place);
            assert(places(round@) =~= places(before).push(place as int));
            assert(places(round@) =~= Seq::new((place + 1 - start) as nat, |j: int| start + j));
            place += 1;
        }
        assert(places(round@) =~= all[r]);
        rounds.push(round);
        start = end;
        proof {
            if end == n {
                assert(rounds.len() == all.len()) by (nonlinear_arith)
                    requires
                        rounds.len() == r + 1,
                        r < all.len(),
                        all.len() * size < n + size,
                        n <= (r + 1) * size,
                ;
            }
        }
    }
    assert(as_positions(rounds@) =~= all);
    rounds
}

/// Targets that differ by repository or number have keys that differ.
proof fn lemma_distinct_keys(targets: Vec<PrTarget>)
    requires
        forall|i: int, j: int|
            0 <= i < j < targets.len() ==> (#[trigger] targets[i]).repository_id != (
            #[trigger] targets[j]).repository_id || targets[i].number != targets[j].number,
    ensures
        distinct_keys(targets@),
{
    assert forall|i: int, j: int| 0 <= i < j < targets@.len() implies (
    #[trigger] targets@[i]).spec_key() != (#[trigger] targets@[j]).spec_key() by {
        assert(targets[i].repository_id != targets[j].repository_id || targets[i].number
            != targets[j].number);
    }
}

/// No two targets of a batch name one pull request.
pub open spec fn distinct_keys(targets: Seq<PrTarget>) -> bool {
    forall|i: int, j: int|
        0 <= i < j < targets.len() ==> (#[trigger] targets[i]).spec_key() != (
        #[trigger] targets[j]).spec_key()
}

/// The progress with every target of a round running.
pub open spec fn started(
    progress: Seq<TargetProgress>,
    targets: Seq<PrTarget>,
    round: Seq<int>,
) -> Seq<TargetProgress>
    decreases round.len(),
{
    if round.len() == 0 {
        progress
    } else {
        with_state(
            started(progress, targets, round.drop_last()),
            targets[round.last()].spec_key(),
            TargetProgressState::Running,
        )
    }
}

/// Whether the call for the target at a position has landed: its round is over, or it is of
/// the round in flight and is back.
pub open spec fn has_landed(
    rounds: Seq<Seq<int>>,
    sent: int,
    landed: Seq<bool>,
    place: int,
) -> bool {
    exists|r: int, j: int|
        0 <= r < sent && 0 <= j < rounds[r].len() && #[trigger] rounds[r][j] == place && (r < sent
            - 1 || landed[j])
}

/// What a batch asks for next.
#[derive(Debug, PartialEq, Eq)]
pub enum BatchStep {
    /// Send these merges together and hand back each outcome as it lands.
    Merge(Vec<PrTarget>),
    /// Send these branch updates together and hand back each outcome as it lands.
    UpdateBranch(Vec<PrTarget>),
    /// Ask Dependabot to rebase this one and hand back its outcome.
    Rebase(PrTarget),
    /// Wait [`COMMENT_SPACING_MILLIS`] before the next comment.
    Pause,
    /// Every target has been attempted: record the batch.
    Finish,
}

/// One batch under way.
pub struct BatchRun {
    /// The installation the batch is listed and recorded under.
    pub installation_id: u64,
    pub request: BulkRequest,
    pub started_at: u64,
    pub progress: BatchProgress,
    /// The rounds, as positions in the batch.
    pub rounds: Vec<Vec<usize>>,
    /// How many rounds have been sent.
    pub sent: usize,
    /// Which of the round in flight have landed.
    pub landed: Vec<bool>,
    /// A comment has been posted and the next one has to wait.
    pub pause_due: bool,
}

impl BatchRun {
    pub open spec fn spec_rounds(self) -> Seq<Seq<int>> {
        as_positions(self.rounds@)
    }

    /// Every call of the round in flight has landed.
    pub open spec fn round_over(self) -> bool {
        forall|j: int| 0 <= j < self.landed.len() ==> #[trigger] self.landed[j]
    }

    /// The run is over the request's targets, in the rounds its action calls for; and of
    /// targets that are each named once, those have settled whose calls have landed.
    pub open spec fn wf(self) -> bool {
        &&& self.progress.wf()
        &&& self.progress.action == self.request.action
        &&& batch_targets(self.progress.targets@) == self.request.targets@
        &&& self.spec_rounds() == batch_rounds(
            self.request.action,
            repository_ids(self.request.targets@),
        )
        &&& self.sent <= self.rounds.len()
        &&& self.sent == 0 ==> self.landed.len() == 0
        &&& self.sent > 0 ==> self.landed.len() == self.rounds[self.sent - 1].len()
        &&& self.pause_due ==> self.round_over()
        &&& distinct_keys(self.request.targets@) ==> forall|p: int|
            0 <= p < self.progress.targets.len() ==> (is_settled(
                (#[trigger] self.progress.targets[p]).state,
            ) <==> has_landed(self.spec_rounds(), self.sent as int, self.landed@, p))
    }

    /// A batch with nothing sent yet.
    pub fn queue(
        installation_id: u64,
        batch_id: &str,
        request: BulkRequest,
        started_at: u64,
    ) -> (run: BatchRun)
        ensures
            run.wf(),
            run.round_over(),
            run.installation_id == installation_id,
            run.request == request,
            run.started_at == started_at,
            run.progress.batch_id@ == batch_id@,
            run.progress.targets.len() == request.targets.len(),
            forall|i: int|
                0 <= i < run.progress.targets.len() ==> (
                #[trigger] run.progress.targets[i]).state is Queued && run.progress.targets[i].target
                    == request.targets[i],
            run.sent == 0,
            !run.pause_due,
    {
        let progress = BatchProgress::queued(batch_id, request.action, &request.targets);
        let ids = collect_ids(&request.targets);
        let rounds = match request.action {
            BulkActionKind::Merge => plan_rounds(&ids, MAX_CONCURRENT),
            BulkActionKind::UpdateBranch => plan_chunks(request.targets.len(), MAX_CONCURRENT),
            BulkActionKind::Rebase => plan_chunks(request.targets.len(), 1),
        };
        BatchRun {
            installation_id,
            request,
            started_at,
            progress,
            rounds,
            sent: 0,
            landed: Vec::new(),
            pause_due: false,
        }
    }

    /// How the batch is listed while it runs.
    pub fn running(&self) -> (running: RunningBatch)
        ensures
            running.batch_id == self.progress.batch_id,
            running.installation_id == self.installation_id,
            running.action == self.request.action,
            running.requested_by == self.request.user_id,
            running.retried_from == self.request.retried_from,
            running.started_at == self.started_at,
            running.target_count == self.request.targets.len(),
    {
        RunningBatch {
            batch_id: self.progress.batch_id.clone(),
            installation_id: self.installation_id,
            action: self.request.action,
            requested_by: self.request.user_id.clone(),
            retried_from: clone_text(&self.request.retried_from),
            started_at: self.started_at,
            target_count: self.request.targets.len() as u64,
        }
    }

    /// Takes the batch to its next step, marking the targets of a round as running.
    pub fn advance(&mut self) -> (step: BatchStep)
        requires
            old(self).wf(),
            old(self).round_over(),
        ensures
            final(self).wf(),
            final(self).installation_id == old(self).installation_id,
            final(self).request == old(self).request,
            final(self).started_at == old(self).started_at,
            final(self).rounds == old(self).rounds,
            final(self).progress.batch_id == old(self).progress.batch_id,
            !final(self).pause_due,
            old(self).pause_due ==> {
                &&& step is Pause
                &&& final(self).progress == old(self).progress
                &&& final(self).sent == old(self).sent
                &&& final(self).landed == old(self).landed
            },
            !old(self).pause_due && old(self).sent == old(self).rounds.len() ==> {
                &&& step is Finish
                &&& final(self).progress == old(self).progress
                &&& final(self).sent == old(self).sent
                &&& final(self).landed == old(self).landed
            },
            !old(self).pause_due && old(self).sent < old(self).rounds.len() ==> {
                let round = old(self).spec_rounds()[old(self).sent as int];
                let targets = targets_at(old(self).request.targets@, round);
                &&& final(self).sent == old(self).sent + 1
                &&& final(self).landed@ == Seq::new(round.len(), |j: int| false)
                &&& final(self).progress.targets@ == started(
                    old(self).progress.targets@,
                    old(self).request.targets@,
                    round,
                )
                &&& match old(self).request.action {
                    BulkActionKind::Merge => step matches BatchStep::Merge(sent) && sent@
                        == targets,
                    BulkActionKind::UpdateBranch => step matches BatchStep::UpdateBranch(sent)
                        && sent@ == targets,
                    BulkActionKind::Rebase => step matches BatchStep::Rebase(sent) && seq![sent]
                        == targets,
                }
            },
            // what goes out is the round's targets, and those alone run
            !old(self).pause_due && old(self).sent < old(self).rounds.len() ==> {
                let round = old(self).rounds[old(self).sent as int];
                &&& step matches BatchStep::Merge(sent) ==> sent.len() == round.len() && forall|
                    j: int,
                |
                    0 <= j < round.len() ==> #[trigger] sent[j] == old(
                        self,
                    ).request.targets[round[j] as int]
                &&& step matches BatchStep::UpdateBranch(sent) ==> sent.len() == round.len()
                    && forall|j: int|
                    0 <= j < round.len() ==> #[trigger] sent[j] == old(
                        self,
                    ).request.targets[round[j] as int]
                &&& step matches BatchStep::Rebase(sent) ==> round.len() == 1 && sent == old(
                    self,
                ).request.targets[round[0] as int]
                &&& final(self).landed.len() == round.len()
                &&& forall|j: int| 0 <= j < round.len() ==> !#[trigger] final(self).landed[j]
            },
            !old(self).pause_due && old(self).sent < old(self).rounds.len() && (forall|
                i: int,
                j: int,
            |
                0 <= i < j < old(self).request.targets.len() ==> (
                #[trigger] old(self).request.targets[i]).repository_id != (
                #[trigger] old(self).request.targets[j]).repository_id
                    || old(self).request.targets[i].number
                    != old(self).request.targets[j].number) ==> {
                let round = old(self).rounds[old(self).sent as int];
                &&& final(self).progress.targets.len() == old(self).progress.targets.len()
                &&& forall|p: int|
                    #![trigger final(self).progress.targets[p]]
                    0 <= p < old(self).progress.targets.len() ==> final(self).progress.targets[p].state == (if exists|j: int|
                        0 <= j < round.len() && #[trigger] round[j] == p {
                        TargetProgressState::Running
                    } else {
                        old(self).progress.targets[p].state
                    })
            },
    {
        let ghost ids = repository_ids(self.request.targets@);
        let ghost plan = self.spec_rounds();
        if self.pause_due {
            self.pause_due = false;
            return BatchStep::Pause;
        }
        if self.sent == self.rounds.len() {
            return BatchStep::Finish;
        }
        let r: usize = self.sent;
        let ghost round = plan[r as int];
        proof {
            law_a_batchs_rounds_hold_every_target_once(self.request.action, ids);
            assert(round == places(self.rounds[r as int]@));
            assert forall|j: int| 0 <= j < self.rounds[r as int].len() implies (
            #[trigger] self.rounds[r as int][j]) < self.request.targets.len() by {
                assert(plan[r as int][j] == self.rounds[r as int][j]);
            }
        }
        let targets = collect_targets(&self.request.targets, &self.rounds[r]);
        let mut landed: Vec<bool> = Vec::new();
        let mut j: usize = 0;
        while j < self.rounds[r].len()
            invariant
                r < self.rounds.len(),
                j <= self.rounds[r as int].len(),
                self.installation_id == old(self).installation_id,
                self.request == old(self).request,
                self.started_at == old(self).started_at,
                self.rounds == old(self).rounds,
                self.sent == r,
                self.landed == old(self).landed,
                self.pause_due == old(self).pause_due,
                self.progress.wf(),
                self.progress.batch_id == old(self).progress.batch_id,
                self.progress.action == old(self).progress.action,
                round == places(self.rounds[r as int]@),
                forall|j: int|
                    0 <= j < self.rounds[r as int].len() ==> (#[trigger] self.rounds[r as int][j])
                        < self.request.targets.len(),
                self.progress.targets@ == started(
                    old(self).progress.targets@,
                    self.request.targets@,
                    round.take(j as int),
                ),
                landed@ == Seq::new(j as nat, |j: int| false),
            decreases self.rounds[r as int].len() - j,
        {
            let place: usize = self.rounds[r][j];
            let ghost next = round.take(j + 1);
            assert(next.drop_last() == round.take(j as int));
            assert(next.last() == place);
            self.progress.start(self.request.targets[place].key());
            landed.push(false);
            assert(landed@ =~= Seq::new((j + 1) as nat, |j: int| false));
            j += 1;
        }
        assert(round.take(j as int) == round);
        self.landed = landed;
        self.sent = r + 1;
        proof {
            lemma_started_targets(
                old(self).progress.targets@,
                self.request.targets@,
                round,
            );
            if distinct_keys(self.request.targets@) {
                lemma_advance_keeps_landed(*old(self), *self);
            }
            let sent_round = self.rounds[r as int];
            assert(round.len() == sent_round.len());
            assert forall|j: int| 0 <= j < round.len() implies targets[j]
                == #[trigger] self.request.targets[sent_round[j] as int] by {
                assert(targets@[j] == self.request.targets@[round[j]]);
            }
            if forall|i: int, j: int|
                0 <= i < j < self.request.targets.len() ==> (
                #[trigger] self.request.targets[i]).repository_id != (
                #[trigger] self.request.targets[j]).repository_id || self.request.targets[i].number
                    != self.request.targets[j].number {
                lemma_distinct_keys(self.request.targets);
                lemma_started(old(self).progress.targets@, self.request.targets@, round);
                let after = self.progress.targets;
                assert forall|p: int| 0 <= p < old(self).progress.targets.len() implies (
                #[trigger] after[p]).state == (if exists|j: int|
                    0 <= j < sent_round.len() && #[trigger] sent_round[j] == p {
                    TargetProgressState::Running
                } else {
                    old(self).progress.targets[p].state
                }) by {
                    let now = started(
                        old(self).progress.targets@,
                        self.request.targets@,
                        round,
                    );
                    assert(after@[p] == now[p]);
                    if round.contains(p) {
                        let j = choose|j: int| 0 <= j < round.len() && round[j] == p;
                        assert(sent_round[j] == p);
                    }
                    if exists|j: int| 0 <= j < sent_round.len() && #[trigger] sent_round[j] == p {
                        let j = choose|j: int|
                            0 <= j < sent_round.len() && #[trigger] sent_round[j] == p;
                        assert(round[j] == p);
                    }
                }
            }
        }
        match self.request.action {
            BulkActionKind::Merge => BatchStep::Merge(targets),
            BulkActionKind::UpdateBranch => BatchStep::UpdateBranch(targets),
            BulkActionKind::Rebase => {
                proof {
                    lemma_chunk_count(ids.len(), 1);
                    assert(round.len() == 1) by {
                        assert((r + 1) * 1 <= ids.len());
                    }
                }
                let target = targets[0].clone();
                assert(seq![target] =~= targets@);
                BatchStep::Rebase(target)
            },
        }
    }

    /// Notes that the call at `index` of the round in flight has landed. A call that failed
    /// for good is its target's failure, and the batch carries on.
    pub fn land(&mut self, index: usize, outcome: Result<ActionOutcome, String>)
        requires
            old(self).wf(),
            index < old(self).landed.len(),
            !old(self).landed[index as int],
        ensures
            final(self).wf(),
            final(self).installation_id == old(self).installation_id,
            final(self).request == old(self).request,
            final(self).started_at == old(self).started_at,
            final(self).rounds == old(self).rounds,
            final(self).sent == old(self).sent,
            final(self).landed@ == old(self).landed@.update(index as int, true),
            final(self).progress.batch_id == old(self).progress.batch_id,
            final(self).progress.targets@ == with_state(
                old(self).progress.targets@,
                old(self).request.targets@[old(self).spec_rounds()[old(self).sent
                    - 1][index as int]].spec_key(),
                landed_state(outcome),
            ),
            final(self).pause_due == (final(self).request.action is Rebase
                && !final(self).progress.completed),
            final(self).request.action is Rebase && distinct_keys(
                final(self).request.targets@,
            ) ==> final(self).pause_due == (final(self).sent < final(self).rounds.len()),
            // the target whose call landed is put where its outcome says, and no other moves
            (forall|i: int, j: int|
                0 <= i < j < old(self).request.targets.len() ==> (
                #[trigger] old(self).request.targets[i]).repository_id != (
                #[trigger] old(self).request.targets[j]).repository_id
                    || old(self).request.targets[i].number
                    != old(self).request.targets[j].number) ==> {
                let place = old(self).rounds[old(self).sent - 1][index as int];
                &&& final(self).progress.targets.len() == old(self).progress.targets.len()
                &&& forall|p: int|
                    #![trigger final(self).progress.targets[p]]
                    0 <= p < old(self).progress.targets.len() ==> final(self).progress.targets[p].state == (if p == place {
                        match outcome {
                            Ok(ActionOutcome::Succeeded { detail, merge_sha }) =>
                                TargetProgressState::Succeeded { detail, merge_sha },
                            Ok(ActionOutcome::Rejected { reason }) =>
                                TargetProgressState::Rejected { reason },
                            Err(detail) => TargetProgressState::Failed { detail },
                        }
                    } else {
                        old(self).progress.targets[p].state
                    })
            },
    {
        let ghost ids = repository_ids(self.request.targets@);
        let ghost plan = self.spec_rounds();
        let r: usize = self.sent - 1;
        let place: usize = self.rounds[r][index];
        proof {
            law_a_batchs_rounds_hold_every_target_once(self.request.action, ids);
            assert(plan[r as int] == places(self.rounds[r as int]@));
            assert(plan[r as int][index as int] == place);
        }
        self.progress.settle(&self.request.targets[place], outcome);
        self.landed.set(index, true);
        proof {
            lemma_with_state_targets(
                old(self).progress.targets@,
                self.request.targets@[place as int].spec_key(),
                landed_state(outcome),
            );
            if distinct_keys(self.request.targets@) {
                lemma_land_keeps_landed(*old(self), *self, index as int, outcome);
            }
            if forall|i: int, j: int|
                0 <= i < j < self.request.targets.len() ==> (
                #[trigger] self.request.targets[i]).repository_id != (
                #[trigger] self.request.targets[j]).repository_id || self.request.targets[i].number
                    != self.request.targets[j].number {
                lemma_distinct_keys(self.request.targets);
                let before = old(self).progress.targets@;
                lemma_progress_keys(before, self.request.targets@);
                lemma_with_state(before, place as int, landed_state(outcome));
                assert(before[place as int].target == self.request.targets@[place as int]);
                assert(self.progress.targets@ == before.update(
                    place as int,
                    TargetProgress {
                        target: before[place as int].target,
                        state: landed_state(outcome),
                    },
                ));
            }
            if self.request.action is Rebase {
                lemma_chunk_count(ids.len(), 1);
                assert(plan[r as int].len() == 1) by {
                    assert((r + 1) * 1 <= ids.len());
                }
                assert(self.round_over());
            }
        }
        self.pause_due = match self.request.action {
            BulkActionKind::Rebase => !self.progress.completed,
            _ => false,
        };
        proof {
            if self.request.action is Rebase && distinct_keys(self.request.targets@) {
                if self.sent == self.rounds.len() {
                    lemma_all_attempted(*self);
                } else {
                    lemma_chunk_count(ids.len(), 1);
                    assert(plan[self.sent as int].len() == 1) by {
                        assert((self.sent + 1) * 1 <= ids.len());
                    }
                    lemma_some_waiting(*self);
                }
            }
        }
    }

    /// The record of a batch whose every target has been attempted. Where no target is named
    /// twice there always is one.
    pub fn finish(&self, completed_at: u64) -> (record: Result<BatchRecord, String>)
        requires
            self.wf(),
            self.round_over(),
            self.sent == self.rounds.len(),
        ensures
            distinct_keys(self.request.targets@) ==> self.progress.completed,
            record is Ok <==> self.progress.completed,
            record matches Err(message) ==> message@
                == "every target was attempted, yet the batch is not complete"@,
            record matches Ok(record) ==> {
                &&& record.batch_id == self.progress.batch_id
                &&& record.installation_id == self.installation_id
                &&& record.action == self.request.action
                &&& record.requested_by == self.request.user_id
                &&& record.retried_from == self.request.retried_from
                &&& record.started_at == self.started_at
                &&& record.completed_at == completed_at
                &&& record.succeeded == self.progress.succeeded
                &&& record.rejected == self.progress.rejected
                &&& record.failed == self.progress.failed
                &&& record.targets.len() == self.progress.targets.len()
                &&& forall|i: int|
                    0 <= i < self.progress.targets.len() ==> #[trigger] records(
                        record.targets[i],
                        self.progress.targets[i],
                    )
                // each entry is of the pull request that was submitted at its place
                &&& record.targets.len() == self.request.targets.len()
                &&& forall|i: int|
                    #![trigger record.targets[i]]
                    0 <= i < self.request.targets.len() ==> {
                        let target = self.request.targets[i];
                        &&& record.targets[i].repository_id == target.repository_id
                        &&& record.targets[i].owner == target.owner
                        &&& record.targets[i].repo == target.repo
                        &&& record.targets[i].number == target.number
                        &&& record.targets[i].title == target.title
                        &&& record.targets[i].html_url == target.html_url
                        &&& record.targets[i].head_sha == Some(target.expected_sha)
                        &&& match self.progress.targets[i].state {
                            TargetProgressState::Succeeded { detail, merge_sha } =>
                                record.targets[i].outcome == (TargetOutcome::Succeeded {
                                    detail,
                                    merge_sha,
                                }),
                            TargetProgressState::Rejected { reason } => record.targets[i].outcome
                                == (TargetOutcome::Rejected { reason }),
                            TargetProgressState::Failed { detail } => record.targets[i].outcome
                                == (TargetOutcome::Failed { detail }),
                            _ => false,
                        }
                    }
            },
    {
        proof {
            if distinct_keys(self.request.targets@) {
                lemma_all_attempted(*self);
            }
            assert(self.progress.targets@.len() == self.request.targets@.len());
            assert forall|i: int| 0 <= i < self.request.targets.len() implies (
            #[trigger] self.progress.targets[i]).target == self.request.targets[i] by {
                assert(batch_targets(self.progress.targets@)[i] == self.progress.targets@[i].target);
            }
        }
        match self.progress.completed_record(
            self.installation_id,
            self.request.user_id.clone(),
            clone_text(&self.request.retried_from),
            self.started_at,
            completed_at,
        ) {
            Some(record) => Ok(record),
            None => Err("every target was attempted, yet the batch is not complete".to_owned()),
        }
    }

    /// Whether a run that ends in failure takes its running listing away. A batch that has
    /// completed keeps it as evidence.
    pub fn unlists_on_failure(&self) -> (unlists: bool)
        ensures
            unlists == !self.progress.completed,
    {
        !self.progress.completed
    }
}

proof fn lemma_with_state_targets(
    progress: Seq<TargetProgress>,
    key: crate::model::PrKey,
    state: TargetProgressState,
)
    ensures
        batch_targets(with_state(progress, key, state)) == batch_targets(progress),
{
    lemma_place_of(progress, key);
    assert(batch_targets(with_state(progress, key, state)) =~= batch_targets(progress));
}

proof fn lemma_started_targets(
    progress: Seq<TargetProgress>,
    targets: Seq<PrTarget>,
    round: Seq<int>,
)
    ensures
        batch_targets(started(progress, targets, round)) == batch_targets(progress),
    decreases round.len(),
{
    if round.len() > 0 {
        lemma_started_targets(progress, targets, round.drop_last());
        lemma_with_state_targets(
            started(progress, targets, round.drop_last()),
            targets[round.last()].spec_key(),
            TargetProgressState::Running,
        );
    }
}

proof fn lemma_progress_keys(progress: Seq<TargetProgress>, targets: Seq<PrTarget>)
    requires
        batch_targets(progress) == targets,
        distinct_keys(targets),
    ensures
        progress.len() == targets.len(),
        forall|i: int| 0 <= i < progress.len() ==> (#[trigger] progress[i]).target == targets[i],
        forall|i: int, j: int|
            0 <= i < progress.len() && 0 <= j < progress.len() && i != j ==> (
            #[trigger] progress[i]).target.spec_key() != (#[trigger] progress[j]).target.spec_key(),
{
    assert forall|i: int| 0 <= i < progress.len() implies (#[trigger] progress[i]).target
        == targets[i] by {
        assert(batch_targets(progress)[i] == progress[i].target);
    }
    assert forall|i: int, j: int|
        0 <= i < progress.len() && 0 <= j < progress.len() && i != j implies (
    #[trigger] progress[i]).target.spec_key() != (#[trigger] progress[j]).target.spec_key() by {
        if i < j {
            assert(targets[i].spec_key() != targets[j].spec_key());
        } else {
            assert(targets[j].spec_key() != targets[i].spec_key());
        }
    }
}

/// Starting a round touches the targets of the round alone.
proof fn lemma_started(progress: Seq<TargetProgress>, targets: Seq<PrTarget>, round: Seq<int>)
    requires
        batch_targets(progress) == targets,
        distinct_keys(targets),
        forall|j: int| 0 <= j < round.len() ==> 0 <= #[trigger] round[j] < targets.len(),
    ensures
        started(progress, targets, round).len() == progress.len(),
        forall|p: int|
            0 <= p < progress.len() ==> (#[trigger] started(progress, targets, round)[p]).state
                == (if round.contains(p) {
                TargetProgressState::Running
            } else {
                progress[p].state
            }),
    decreases round.len(),
{
    if round.len() > 0 {
        let shorter = round.drop_last();
        let before = started(progress, targets, shorter);
        lemma_started(progress, targets, shorter);
        lemma_started_targets(progress, targets, shorter);
        lemma_progress_keys(before, targets);
        let place = round.last();
        assert(place == round[round.len() - 1]);
        lemma_with_state(before, place, TargetProgressState::Running);
        let after = started(progress, targets, round);
        assert forall|p: int| 0 <= p < progress.len() implies (#[trigger] after[p]).state == (
        if round.contains(p) {
            TargetProgressState::Running
        } else {
            progress[p].state
        }) by {
            assert(before[p].state == (if shorter.contains(p) {
                TargetProgressState::Running
            } else {
                progress[p].state
            }));
            if p != place {
                if round.contains(p) {
                    let k = choose|k: int| 0 <= k < round.len() && round[k] == p;
                    assert(shorter[k] == p);
                }
                if shorter.contains(p) {
                    let k = choose|k: int| 0 <= k < shorter.len() && shorter[k] == p;
                    assert(round[k] == p);
                }
            }
        }
    }
}

proof fn lemma_advance_keeps_landed(before: BatchRun, after: BatchRun)
    requires
        before.wf(),
        before.round_over(),
        before.sent < before.rounds.len(),
        distinct_keys(before.request.targets@),
        after.request == before.request,
        after.rounds == before.rounds,
        after.sent == before.sent + 1,
        after.landed@ == Seq::new(
            before.spec_rounds()[before.sent as int].len(),
            |j: int| false,
        ),
        after.progress.targets@ == started(
            before.progress.targets@,
            before.request.targets@,
            before.spec_rounds()[before.sent as int],
        ),
    ensures
        forall|p: int|
            0 <= p < after.progress.targets.len() ==> (is_settled(
                (#[trigger] after.progress.targets[p]).state,
            ) <==> has_landed(after.spec_rounds(), after.sent as int, after.landed@, p)),
{
    let rounds = before.spec_rounds();
    let targets = before.request.targets@;
    let round = rounds[before.sent as int];
    law_a_batchs_rounds_hold_every_target_once(before.request.action, repository_ids(targets));
    assert(repository_ids(targets).len() == targets.len());
    assert forall|j: int| 0 <= j < round.len() implies 0 <= #[trigger] round[j] < targets.len() by {
        assert(0 <= rounds[before.sent as int][j] < targets.len());
    }
    lemma_started(before.progress.targets@, targets, round);
    assert forall|p: int| 0 <= p < after.progress.targets.len() implies (is_settled(
        (#[trigger] after.progress.targets[p]).state,
    ) <==> has_landed(rounds, after.sent as int, after.landed@, p)) by {
        assert(is_settled(before.progress.targets[p].state) <==> has_landed(
            rounds,
            before.sent as int,
            before.landed@,
            p,
        ));
        assert(started(before.progress.targets@, targets, round)[p].state == (if round.contains(
            p,
        ) {
            TargetProgressState::Running
        } else {
            before.progress.targets@[p].state
        }));
        if round.contains(p) {
            let k = choose|k: int| 0 <= k < round.len() && round[k] == p;
            assert(rounds[before.sent as int][k] == p);
            if has_landed(rounds, after.sent as int, after.landed@, p) {
                let (r, j) = choose|r: int, j: int|
                    0 <= r < after.sent && 0 <= j < rounds[r].len() && #[trigger] rounds[r][j] == p
                        && (r < after.sent - 1 || after.landed@[j]);
                assert(r == before.sent && j == k);
                assert(!after.landed@[j]);
            }
        } else {
            if has_landed(rounds, after.sent as int, after.landed@, p) {
                let (r, j) = choose|r: int, j: int|
                    0 <= r < after.sent && 0 <= j < rounds[r].len() && #[trigger] rounds[r][j] == p
                        && (r < after.sent - 1 || after.landed@[j]);
                if r == before.sent {
                    assert(round[j] == p);
                } else {
                    if r == before.sent - 1 {
                        assert(rounds[r] == places(before.rounds[r]@));
                        assert(before.landed[j]);
                    }
                    assert(rounds[r][j] == p);
                }
            }
            if has_landed(rounds, before.sent as int, before.landed@, p) {
                let (r, j) = choose|r: int, j: int|
                    0 <= r < before.sent && 0 <= j < rounds[r].len() && #[trigger] rounds[r][j]
                        == p && (r < before.sent - 1 || before.landed@[j]);
                assert(rounds[r][j] == p && r < after.sent - 1);
            }
        }
    }
}

proof fn lemma_land_keeps_landed(
    before: BatchRun,
    after: BatchRun,
    index: int,
    outcome: Result<ActionOutcome, String>,
)
    requires
        before.wf(),
        0 <= index < before.landed.len(),
        distinct_keys(before.request.targets@),
        after.request == before.request,
        after.rounds == before.rounds,
        after.sent == before.sent,
        after.landed@ == before.landed@.update(index, true),
        after.progress.targets@ == with_state(
            before.progress.targets@,
            before.request.targets@[before.spec_rounds()[before.sent - 1][index]].spec_key(),
            landed_state(outcome),
        ),
    ensures
        forall|p: int|
            0 <= p < after.progress.targets.len() ==> (is_settled(
                (#[trigger] after.progress.targets[p]).state,
            ) <==> has_landed(after.spec_rounds(), after.sent as int, after.landed@, p)),
{
    let rounds = before.spec_rounds();
    let targets = before.request.targets@;
    let last = before.sent - 1;
    law_a_batchs_rounds_hold_every_target_once(before.request.action, repository_ids(targets));
    assert(repository_ids(targets).len() == targets.len());
    assert(rounds[last] == places(before.rounds[last]@));
    let place = rounds[last][index];
    lemma_progress_keys(before.progress.targets@, targets);
    lemma_with_state(before.progress.targets@, place, landed_state(outcome));
    assert(is_settled(landed_state(outcome)));
    assert forall|p: int| 0 <= p < after.progress.targets.len() implies (is_settled(
        (#[trigger] after.progress.targets[p]).state,
    ) <==> has_landed(rounds, after.sent as int, after.landed@, p)) by {
        assert(is_settled(before.progress.targets[p].state) <==> has_landed(
            rounds,
            before.sent as int,
            before.landed@,
            p,
        ));
        if p == place {
            assert(rounds[last][index] == p && after.landed@[index]);
        } else {
            if has_landed(rounds, after.sent as int, after.landed@, p) {
                let (r, j) = choose|r: int, j: int|
                    0 <= r < after.sent && 0 <= j < rounds[r].len() && #[trigger] rounds[r][j] == p
                        && (r < after.sent - 1 || after.landed@[j]);
                assert(rounds[r][j] == p && (r < before.sent - 1 || before.landed@[j]));
            }
            if has_landed(rounds, before.sent as int, before.landed@, p) {
                let (r, j) = choose|r: int, j: int|
                    0 <= r < before.sent && 0 <= j < rounds[r].len() && #[trigger] rounds[r][j]
                        == p && (r < before.sent - 1 || before.landed@[j]);
                assert(rounds[r][j] == p && (r < after.sent - 1 || after.landed@[j]));
            }
        }
    }
}

/// While a round with a target has yet to be sent, the batch is not complete.
proof fn lemma_some_waiting(run: BatchRun)
    requires
        run.wf(),
        run.sent < run.rounds.len(),
        run.spec_rounds()[run.sent as int].len() > 0,
        distinct_keys(run.request.targets@),
    ensures
        !run.progress.completed,
{
    let rounds = run.spec_rounds();
    let targets = run.request.targets@;
    law_a_batchs_rounds_hold_every_target_once(run.request.action, repository_ids(targets));
    assert(repository_ids(targets).len() == targets.len());
    lemma_progress_keys(run.progress.targets@, targets);
    let place = rounds[run.sent as int][0];
    if has_landed(rounds, run.sent as int, run.landed@, place) {
        let (r, j) = choose|r: int, j: int|
            0 <= r < run.sent && 0 <= j < rounds[r].len() && #[trigger] rounds[r][j] == place && (r
                < run.sent - 1 || run.landed@[j]);
        assert(rounds[r][j] == rounds[run.sent as int][0]);
    }
    assert(!is_settled(run.progress.targets[place].state));
    assert(!is_settled(run.progress.targets@[place].state));
}

/// Once every round has been sent and has landed, every target has settled.
proof fn lemma_all_attempted(run: BatchRun)
    requires
        run.wf(),
        run.round_over(),
        run.sent == run.rounds.len(),
        distinct_keys(run.request.targets@),
    ensures
        run.progress.completed,
{
    let rounds = run.spec_rounds();
    let targets = run.request.targets@;
    law_a_batchs_rounds_hold_every_target_once(run.request.action, repository_ids(targets));
    assert(repository_ids(targets).len() == targets.len());
    lemma_progress_keys(run.progress.targets@, targets);
    assert forall|p: int| 0 <= p < run.progress.targets@.len() implies is_settled(
        #[trigger] run.progress.targets@[p].state,
    ) by {
        assert(stands_in(rounds, p));
        let (r, j) = choose|r: int, j: int|
            0 <= r < rounds.len() && 0 <= j < rounds[r].len() && #[trigger] rounds[r][j] == p;
        if r == run.sent - 1 {
            assert(rounds[r] == places(run.rounds[r]@));
            assert(run.landed[j]);
        }
        assert(has_landed(rounds, run.sent as int, run.landed@, p));
        assert(is_settled(run.progress.targets[p].state));
    }
    assert(all_settled(run.progress.targets@));
}

/// How long a finished batch's record has been waiting to be written, in seconds, where
/// that is long enough to be worth a warning.
pub fn record_stuck_for(record: &BatchRecord, now: u64) -> (pending_for: Option<u64>)
    ensures
        pending_for == (if now - record.completed_at > RECORD_PENDING_QUIETLY_SECONDS {
            Some((now - record.completed_at) as u64)
        } else {
            None
        }),
{
    let pending_for: u64 = now.saturating_sub(record.completed_at);
    if pending_for <= RECORD_PENDING_QUIETLY_SECONDS {
        None
    } else {
        Some(pending_for)
    }
}

/// How a batch is paced: merges and branch updates go out at most three at a time, rebases one
/// at a time with 350 milliseconds between two, and a record that waits to be written is warned
/// about after 30 seconds.
pub proof fn law_how_a_batch_is_paced(
    run: BatchRun,
    r: int,
    record: &BatchRecord,
    now: u64,
    pending_for: Option<u64>,
)
    requires
        run.wf(),
        0 <= r < run.rounds.len(),
        call_ensures(record_stuck_for, (record, now), pending_for),
    ensures
        1 <= run.rounds[r].len() <= 3,
        run.request.action is Rebase ==> run.rounds[r].len() == 1,
        COMMENT_SPACING_MILLIS == 350,
        now <= record.completed_at + 30 ==> pending_for is None,
        now > record.completed_at + 30 ==> (pending_for matches Some(seconds)
            && record.completed_at + seconds == now),
{
    let ids = repository_ids(run.request.targets@);
    let round = run.spec_rounds()[r];
    assert(round == places(run.rounds[r]@));
    match run.request.action {
        BulkActionKind::Merge => {
            law_rounds_are_bounded_and_never_empty(ids, 3, r);
        },
        BulkActionKind::UpdateBranch => {
            lemma_chunk_count(ids.len(), 3);
            assert(r * 3 <= (chunks(ids.len(), 3).len() - 1) * 3);
        },
        BulkActionKind::Rebase => {
            lemma_chunk_count(ids.len(), 1);
        },
    }
}

/// Every target of a batch is sent once: it stands at one place of one round.
pub proof fn law_every_target_is_sent_once(run: BatchRun, p: int)
    requires
        run.wf(),
        0 <= p < run.request.targets.len(),
    ensures
        exists|r: int, j: int|
            0 <= r < run.rounds.len() && 0 <= j < run.rounds[r].len() && #[trigger] run.rounds[r][j]
                == p,
        forall|r: int, j: int, s: int, k: int|
            0 <= r < run.rounds.len() && 0 <= j < run.rounds[r].len() && 0 <= s < run.rounds.len()
                && 0 <= k < run.rounds[s].len() && #[trigger] run.rounds[r][j]
                == #[trigger] run.rounds[s][k] ==> r == s && j == k,
        forall|r: int, j: int|
            0 <= r < run.rounds.len() && 0 <= j < run.rounds[r].len() ==> (
            #[trigger] run.rounds[r][j]) < run.request.targets.len(),
{
    let ids = repository_ids(run.request.targets@);
    let plan = run.spec_rounds();
    law_a_batchs_rounds_hold_every_target_once(run.request.action, ids);
    assert forall|r: int, j: int|
        0 <= r < run.rounds.len() && 0 <= j < run.rounds[r].len() implies plan[r].len()
        == run.rounds[r].len() && plan[r][j] == #[trigger] run.rounds[r][j] by {
        assert(plan[r] == places(run.rounds[r]@));
    }
    assert(stands_in(plan, p));
    let (r, j) = choose|r: int, j: int|
        0 <= r < plan.len() && 0 <= j < plan[r].len() && #[trigger] plan[r][j] == p;
    assert(plan[r] == places(run.rounds[r]@));
    assert(run.rounds[r][j] == p);
}

/// A round of merges holds no two pull requests of one repository. Branch updates go out three
/// by three and rebases one by one, in the order the batch names them.
pub proof fn law_what_goes_out_in_a_round(run: BatchRun, r: int, j: int)
    requires
        run.wf(),
        0 <= r < run.rounds.len(),
        0 <= j < run.rounds[r].len(),
    ensures
        match run.request.action {
            BulkActionKind::Merge => forall|k: int|
                j < k < run.rounds[r].len() ==> run.request.targets[run.rounds[r][j] as int].repository_id
                    != run.request.targets[#[trigger] run.rounds[r][k] as int].repository_id,
            BulkActionKind::UpdateBranch => run.rounds[r][j] == 3 * r + j && (
            run.rounds[r].len() == 3 || r == run.rounds.len() - 1),
            BulkActionKind::Rebase => run.rounds[r][j] == r && run.rounds.len()
                == run.request.targets.len(),
        },
{
    let ids = repository_ids(run.request.targets@);
    let plan = run.spec_rounds();
    assert(plan[r] == places(run.rounds[r]@));
    law_a_batchs_rounds_hold_every_target_once(run.request.action, ids);
    match run.request.action {
        BulkActionKind::Merge => {
            assert forall|k: int|
                j < k
                    < run.rounds[r].len() implies run.request.targets[run.rounds[r][j] as int].repository_id
                != run.request.targets[#[trigger] run.rounds[r][k] as int].repository_id by {
                law_a_round_holds_one_target_of_a_repository(ids, 3, r, j, k);
                assert(0 <= plan[r][j] < ids.len() && 0 <= plan[r][k] < ids.len());
                assert(plan[r][j] == run.rounds[r][j] && plan[r][k] == run.rounds[r][k]);
            }
        },
        BulkActionKind::UpdateBranch => {
            lemma_chunk_count(ids.len(), 3);
            assert(plan[r] == chunk(ids.len(), 3, r));
            assert(plan[r][j] == r * 3 + j);
            if r < run.rounds.len() - 1 {
                assert((r + 1) * 3 <= ids.len());
            }
        },
        BulkActionKind::Rebase => {
            lemma_chunk_count(ids.len(), 1);
            assert(plan[r] == chunk(ids.len(), 1, r));
            assert(plan[r][j] == r * 1 + j);
        },
    }
}

/// Each target of a recorded batch names the pull request that was submitted at its place, at
/// the head it was submitted with, and ended as its own progress says.
pub proof fn law_a_recorded_batch_names_what_was_submitted(
    run: BatchRun,
    completed_at: u64,
    record: BatchRecord,
    i: int,
)
    requires
        run.wf(),
        call_ensures(BatchRun::finish, (&run, completed_at), Ok::<BatchRecord, String>(record)),
        0 <= i < run.request.targets.len(),
    ensures
        record.targets.len() == run.request.targets.len(),
        record.targets[i].repository_id == run.request.targets[i].repository_id,
        record.targets[i].owner == run.request.targets[i].owner,
        record.targets[i].repo == run.request.targets[i].repo,
        record.targets[i].number == run.request.targets[i].number,
        record.targets[i].title == run.request.targets[i].title,
        record.targets[i].html_url == run.request.targets[i].html_url,
        record.targets[i].head_sha == Some(run.request.targets[i].expected_sha),
        record.targets[i].outcome is Succeeded <==> run.progress.targets[i].state is Succeeded,
        record.targets[i].outcome is Rejected <==> run.progress.targets[i].state is Rejected,
        record.targets[i].outcome is Failed <==> run.progress.targets[i].state is Failed,
{
}

/// The listing of a running batch and its record agree on what the batch is: its id, the
/// installation, the action, who asked for it, what it retries and when it began.
pub proof fn law_a_batch_is_listed_as_it_is_recorded(
    run: BatchRun,
    completed_at: u64,
    running: RunningBatch,
    record: BatchRecord,
)
    requires
        run.wf(),
        call_ensures(BatchRun::running, (&run,), running),
        call_ensures(BatchRun::finish, (&run, completed_at), Ok::<BatchRecord, String>(record)),
    ensures
        running.batch_id == record.batch_id,
        running.installation_id == record.installation_id,
        running.action == record.action,
        running.requested_by == record.requested_by,
        running.retried_from == record.retried_from,
        running.started_at == record.started_at,
        running.target_count == record.targets.len(),
        record.completed_at == completed_at,
        record.action == run.request.action,
        record.requested_by == run.request.user_id,
        record.installation_id == run.installation_id,
        record.succeeded + record.rejected + record.failed == record.targets.len(),
{
    law_the_tally_of_a_finished_batch_is_its_size(run.progress);
}

/// A run that fails takes its listing away only while some target is queued or running.
pub proof fn law_a_failed_run_is_unlisted_while_it_is_not_over(run: BatchRun, unlists: bool)
    requires
        run.wf(),
        call_ensures(BatchRun::unlists_on_failure, (&run,), unlists),
    ensures
        unlists <==> exists|i: int|
            0 <= i < run.progress.targets.len() && ((
            #[trigger] run.progress.targets[i]).state is Queued || run.progress.targets[i].state
                is Running),
{
    law_the_tally_counts_the_targets(run.progress);
}

proof fn lemma_ids_filter(
    targets: Seq<PrTarget>,
    names: spec_fn(u64) -> bool,
    of: spec_fn(PrTarget) -> bool,
)
    requires
        forall|target: PrTarget| #[trigger] of(target) <==> names(target.repository_id),
    ensures
        repository_ids(targets).filter(names).len() == targets.filter(of).len(),
    decreases targets.len(),
{
    reveal(Seq::filter);
    if targets.len() > 0 {
        lemma_ids_filter(targets.drop_last(), names, of);
        assert(of(targets.last()) <==> names(targets.last().repository_id));
        assert(repository_ids(targets).drop_last() =~= repository_ids(targets.drop_last()));
    }
}

/// Merges go out turn by turn: a pull request's turn is how many of its repository the batch
/// names before it, so those of one repository go out in batch order; and within a turn, a
/// repository that the batch names first goes first.
pub proof fn law_merges_go_out_turn_by_turn(run: BatchRun, r: int, j: int, s: int, k: int)
    requires
        run.wf(),
        run.request.action is Merge,
        0 <= r < run.rounds.len(),
        0 <= j < run.rounds[r].len(),
        0 <= s < run.rounds.len(),
        0 <= k < run.rounds[s].len(),
        r < s || (r == s && j < k),
    ensures
        ({
            let targets = run.request.targets@;
            let left = run.rounds[r][j] as int;
            let right = run.rounds[s][k] as int;
            let left_turn = targets.take(left).filter(
                |target: PrTarget| target.repository_id == targets[left].repository_id,
            ).len();
            let right_turn = targets.take(right).filter(
                |target: PrTarget| target.repository_id == targets[right].repository_id,
            ).len();
            &&& targets[left].repository_id == targets[right].repository_id ==> left < right
            &&& left_turn <= right_turn
            &&& left_turn == right_turn ==> exists|p: int|
                0 <= p < targets.len() && (#[trigger] targets[p]).repository_id
                    == targets[left].repository_id && forall|q: int|
                    0 <= q <= p ==> (#[trigger] targets[q]).repository_id
                        != targets[right].repository_id
        }),
{
    let targets = run.request.targets@;
    let ids = repository_ids(targets);
    let plan = run.spec_rounds();
    assert(plan[r] == places(run.rounds[r]@));
    assert(plan[s] == places(run.rounds[s]@));
    let left = run.rounds[r][j] as int;
    let right = run.rounds[s][k] as int;
    assert(plan[r][j] == left && plan[s][k] == right);
    lemma_merge_partition(ids, 3);
    lemma_flatten_at(plan, r, j);
    lemma_flatten_at(plan, s, k);
    if r < s {
        lemma_offset_monotone(plan, r, s);
    }
    let a = offset(plan, r) + j;
    let b = offset(plan, s) + k;
    if ids[left] == ids[right] {
        law_a_repository_keeps_its_batch_order(ids, 3, a, b);
    }
    law_targets_go_out_turn_by_turn(ids, 3, a, b);
    assert(ids.take(left) =~= repository_ids(targets.take(left)));
    assert(ids.take(right) =~= repository_ids(targets.take(right)));
    lemma_ids_filter(
        targets.take(left),
        |id: u64| id == ids[left],
        |target: PrTarget| target.repository_id == targets[left].repository_id,
    );
    lemma_ids_filter(
        targets.take(right),
        |id: u64| id == ids[right],
        |target: PrTarget| target.repository_id == targets[right].repository_id,
    );
    let left_turn = ids.take(left).filter(|id: u64| id == ids[left]).len();
    let right_turn = ids.take(right).filter(|id: u64| id == ids[right]).len();
    if left_turn == right_turn {
        let p = choose|p: int|
            0 <= p < ids.len() && #[trigger] ids[p] == ids[left] && forall|q: int|
                0 <= q <= p ==> #[trigger] ids[q] != ids[right];
        assert(targets[p].repository_id == targets[left].repository_id);
        assert forall|q: int| 0 <= q <= p implies (#[trigger] targets[q]).repository_id
            != targets[right].repository_id by {
            assert(ids[q] != ids[right]);
        }
    }
}

} // verus!
