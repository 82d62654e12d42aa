//! Where a batch stands: what has become of each of its targets, and the tally.

use vstd::prelude::*;

use crate::model::{
    clone_text, ActionOutcome, BulkActionKind, PrKey, PrTarget, RejectReason, UserId,
};
use crate::text::{decimal, decimal_text};

verus! {

/// What has become of one target.
#[derive(Clone, Debug, PartialEq, Eq)]
pub enum TargetProgressState {
    Queued,
    Running,
    Succeeded { detail: String, merge_sha: Option<String> },
    Rejected { reason: RejectReason },
    Failed { detail: String },
}

#[derive(Clone, Debug, PartialEq, Eq)]
pub struct TargetProgress {
    pub target: PrTarget,
    pub state: TargetProgressState,
}

/// Where a batch stands, target by target in batch order.
#[derive(Clone, Debug, PartialEq, Eq)]
pub struct BatchProgress {
    pub batch_id: String,
    pub action: BulkActionKind,
    pub targets: Vec<TargetProgress>,
    pub succeeded: u64,
    pub rejected: u64,
    pub failed: u64,
    pub completed: bool,
}

/// How one target of a finished batch ended.
#[derive(Clone, Debug, PartialEq, Eq)]
pub enum TargetOutcome {
    Succeeded { detail: String, merge_sha: Option<String> },
    Rejected { reason: RejectReason },
    Failed { detail: String },
}

/// One target of a finished batch as the projection keeps it.
#[derive(Clone, Debug, PartialEq, Eq)]
pub struct BatchTargetRecord {
    pub repository_id: u64,
    pub owner: String,
    pub repo: String,
    pub number: u64,
    pub title: String,
    pub html_url: String,
    pub head_sha: Option<String>,
    pub outcome: TargetOutcome,
}

/// A finished batch as the projection keeps it.
#[derive(Clone, Debug, PartialEq, Eq)]
pub struct BatchRecord {
    pub batch_id: String,
    /// The installation whose workflow ran it.
    pub installation_id: u64,
    pub action: BulkActionKind,
    pub requested_by: UserId,
    pub retried_from: Option<String>,
    pub started_at: u64,
    pub completed_at: u64,
    pub succeeded: u64,
    pub rejected: u64,
    pub failed: u64,
    pub targets: Vec<BatchTargetRecord>,
}

/// A batch listed as running.
#[derive(Clone, Debug, PartialEq, Eq)]
pub struct RunningBatch {
    pub batch_id: String,
    /// The installation whose workflow runs it.
    pub installation_id: u64,
    pub action: BulkActionKind,
    pub requested_by: UserId,
    pub retried_from: Option<String>,
    pub started_at: u64,
    pub target_count: u64,
}

/// Whether a target has come to its end.
pub open spec fn is_settled(state: TargetProgressState) -> bool {
    state is Succeeded || state is Rejected || state is Failed
}

/// The columns of a tally.
pub enum Column {
    Succeeded,
    Rejected,
    Failed,
}

/// Whether a target counts in a column.
pub open spec fn counts(state: TargetProgressState, column: Column) -> bool {
    match column {
        Column::Succeeded => state is Succeeded,
        Column::Rejected => state is Rejected,
        Column::Failed => state is Failed,
    }
}

/// How many targets count in a column.
pub open spec fn tally(targets: Seq<TargetProgress>, column: Column) -> nat
    decreases targets.len(),
{
    if targets.len() == 0 {
        0
    } else {
        tally(targets.drop_last(), column) + (if counts(targets.last().state, column) {
            1nat
        } else {
            0
        })
    }
}

pub open spec fn all_settled(targets: Seq<TargetProgress>) -> bool {
    forall|i: int| 0 <= i < targets.len() ==> is_settled(#[trigger] targets[i].state)
}

/// The first target with a key, or the number of targets where none has it.
pub open spec fn place_of(targets: Seq<TargetProgress>, key: PrKey) -> int
    decreases targets.len(),
{
    if targets.len() == 0 {
        0
    } else if targets[0].target.spec_key() == key {
        0
    } else {
        1 + place_of(targets.drop_first(), key)
    }
}

/// The targets with the first one that has the key put in a state.
pub open spec fn with_state(
    targets: Seq<TargetProgress>,
    key: PrKey,
    state: TargetProgressState,
) -> Seq<TargetProgress> {
    let place = place_of(targets, key);
    if place < targets.len() {
        targets.update(place, TargetProgress { target: targets[place].target, state })
    } else {
        targets
    }
}

/// The state an action's outcome puts its target in.
pub open spec fn outcome_state(outcome: ActionOutcome) -> TargetProgressState {
    match outcome {
        ActionOutcome::Succeeded { detail, merge_sha } => TargetProgressState::Succeeded {
            detail,
            merge_sha,
        },
        ActionOutcome::Rejected { reason } => TargetProgressState::Rejected { reason },
    }
}

/// The state a settled call puts its target in: its outcome, or the failure it ended with.
pub open spec fn landed_state(outcome: Result<ActionOutcome, String>) -> TargetProgressState {
    match outcome {
        Ok(outcome) => outcome_state(outcome),
        Err(detail) => TargetProgressState::Failed { detail },
    }
}

/// The targets a batch runs over, whatever has become of them.
pub open spec fn batch_targets(targets: Seq<TargetProgress>) -> Seq<PrTarget> {
    targets.map_values(|progress: TargetProgress| progress.target)
}

/// What a settled state is recorded as.
pub open spec fn recorded_as(state: TargetProgressState, outcome: TargetOutcome) -> bool {
    match (state, outcome) {
        (
            TargetProgressState::Succeeded { detail, merge_sha },
            TargetOutcome::Succeeded { detail: recorded, merge_sha: commit },
        ) => detail == recorded && merge_sha == commit,
        (
            TargetProgressState::Rejected { reason },
            TargetOutcome::Rejected { reason: recorded },
        ) => reason == recorded,
        (
            TargetProgressState::Failed { detail },
            TargetOutcome::Failed { detail: recorded },
        ) => detail == recorded,
        _ => false,
    }
}

/// What is recorded of a target: the target itself, the head it was sent with, and how it
/// ended.
pub open spec fn records(record: BatchTargetRecord, progress: TargetProgress) -> bool {
    &&& record.repository_id == progress.target.repository_id
    &&& record.owner == progress.target.owner
    &&& record.repo == progress.target.repo
    &&& record.number == progress.target.number
    &&& record.title == progress.target.title
    &&& record.html_url == progress.target.html_url
    &&& record.head_sha == Some(progress.target.expected_sha)
    &&& recorded_as(progress.state, record.outcome)
}

pub proof fn lemma_place_of(targets: Seq<TargetProgress>, key: PrKey)
    ensures
        0 <= place_of(targets, key) <= targets.len(),
        place_of(targets, key) < targets.len() ==> targets[place_of(
            targets,
            key,
        )].target.spec_key() == key,
        forall|i: int|
            0 <= i < place_of(targets, key) ==> (#[trigger] targets[i]).target.spec_key() != key,
    decreases targets.len(),
{
    if targets.len() > 0 && targets[0].target.spec_key() != key {
        let rest = targets.drop_first();
        lemma_place_of(rest, key);
        assert forall|i: int| 0 <= i < place_of(targets, key) implies (
        #[trigger] targets[i]).target.spec_key() != key by {
            if i > 0 {
                assert(rest[i - 1].target.spec_key() != key);
            }
        }
    }
}

proof fn lemma_place_unique(targets: Seq<TargetProgress>, key: PrKey, place: int)
    requires
        0 <= place <= targets.len(),
        place < targets.len() ==> targets[place].target.spec_key() == key,
        forall|i: int| 0 <= i < place ==> (#[trigger] targets[i]).target.spec_key() != key,
    ensures
        place_of(targets, key) == place,
{
    lemma_place_of(targets, key);
    let found = place_of(targets, key);
    if found < place {
        assert(targets[found].target.spec_key() != key);
    } else if place < found {
        assert(targets[place].target.spec_key() != key);
    }
}

impl BatchProgress {
    /// The tally is that of the targets, and the batch is complete when all have settled.
    pub open spec fn wf(self) -> bool {
        &&& self.succeeded == tally(self.targets@, Column::Succeeded)
        &&& self.rejected == tally(self.targets@, Column::Rejected)
        &&& self.failed == tally(self.targets@, Column::Failed)
        &&& self.completed == all_settled(self.targets@)
    }

    /// A batch none of whose targets has been sent.
    pub fn queued(batch_id: &str, action: BulkActionKind, targets: &Vec<PrTarget>) -> (progress:
        BatchProgress)
        ensures
            progress.wf(),
            progress.batch_id@ == batch_id@,
            progress.action == action,
            batch_targets(progress.targets@) == targets@,
            progress.targets.len() == targets.len(),
            forall|i: int|
                0 <= i < progress.targets.len() ==> (
                #[trigger] progress.targets[i]).state is Queued && progress.targets[i].target
                    == targets[i],
            progress.succeeded == 0 && progress.rejected == 0 && progress.failed == 0,
    {
        let mut queued: Vec<TargetProgress> = Vec::new();
        let mut i: usize = 0;
        while i < targets.len()
            invariant
                i <= targets.len(),
                queued.len() == i,
                batch_targets(queued@) == targets@.take(i as int),
                forall|k: int| 0 <= k < i ==> (#[trigger] queued[k]).state is Queued,
            decreases targets.len() - i,
        {
            let ghost before = queued@;
            queued.push(
                TargetProgress { target: targets[i].clone(), state: TargetProgressState::Queued },
            );
            assert(batch_targets(queued@) =~= batch_targets(before).push(targets[i as int]));
            assert(targets@.take(i + 1) =~= targets@.take(i as int).push(targets[i as int]));
            i += 1;
        }
        assert(targets@.take(i as int) == targets@);
        assert forall|k: int| 0 <= k < targets.len() implies (#[trigger] queued[k]).target
            == targets[k] by {
            assert(batch_targets(queued@)[k] == queued@[k].target);
        }
        let completed = queued.len() == 0;
        assert(all_settled(queued@) == completed) by {
            if queued.len() > 0 {
                assert(!is_settled(queued[0].state));
            }
        }
        proof {
            lemma_tally_unsettled(queued@);
        }
        BatchProgress {
            batch_id: batch_id.to_owned(),
            action,
            targets: queued,
            succeeded: 0,
            rejected: 0,
            failed: 0,
            completed,
        }
    }

    /// Puts the first target with the key in a state and counts anew.
    fn set_state(&mut self, key: PrKey, state: TargetProgressState)
        ensures
            final(self).wf(),
            final(self).batch_id == old(self).batch_id,
            final(self).action == old(self).action,
            final(self).targets@ == with_state(old(self).targets@, key, state),
    {
        let mut place: usize = 0;
        while place < self.targets.len() && self.targets[place].target.key() != key
            invariant
                *self == *old(self),
                place <= self.targets.len(),
                forall|i: int|
                    0 <= i < place ==> (#[trigger] self.targets[i]).target.spec_key() != key,
            decreases self.targets.len() - place,
        {
            place += 1;
        }
        proof {
            lemma_place_unique(self.targets@, key, place as int);
        }
        if place < self.targets.len() {
            let target = self.targets[place].target.clone();
            self.targets.set(place, TargetProgress { target, state });
        }
        self.count();
    }

    /// Counts the targets' states into the tally.
    fn count(&mut self)
        ensures
            final(self).wf(),
            final(self).batch_id == old(self).batch_id,
            final(self).action == old(self).action,
            final(self).targets == old(self).targets,
    {
        let mut succeeded: u64 = 0;
        let mut rejected: u64 = 0;
        let mut failed: u64 = 0;
        let mut completed = true;
        let mut i: usize = 0;
        while i < self.targets.len()
            invariant
                *self == *old(self),
                i <= self.targets.len(),
                succeeded == tally(self.targets@.take(i as int), Column::Succeeded),
                rejected == tally(self.targets@.take(i as int), Column::Rejected),
                failed == tally(self.targets@.take(i as int), Column::Failed),
                succeeded <= i,
                rejected <= i,
                failed <= i,
                completed == all_settled(self.targets@.take(i as int)),
            decreases self.targets.len() - i,
        {
            let ghost next = self.targets@.take(i + 1);
            assert(next.drop_last() == self.targets@.take(i as int));
            assert(next.last() == self.targets[i as int]);
            match &self.targets[i].state {
                TargetProgressState::Succeeded { .. } => {
                    succeeded += 1;
                },
                TargetProgressState::Rejected { .. } => {
                    rejected += 1;
                },
                TargetProgressState::Failed { .. } => {
                    failed += 1;
                },
                _ => {
                    completed = false;
                },
            }
            proof {
                let seen = self.targets@.take(i as int);
                if all_settled(seen) && is_settled(self.targets[i as int].state) {
                    assert forall|k: int| 0 <= k < next.len() implies is_settled(
                        #[trigger] next[k].state,
                    ) by {
                        if k < i {
                            assert(is_settled(seen[k].state));
                        }
                    }
                } else if all_settled(next) {
                    assert(is_settled(next[i as int].state));
                    assert forall|k: int| 0 <= k < seen.len() implies is_settled(
                        #[trigger] seen[k].state,
                    ) by {
                        assert(is_settled(next[k].state));
                    }
                }
            }
            i += 1;
        }
        assert(self.targets@.take(i as int) == self.targets@);
        self.succeeded = succeeded;
        self.rejected = rejected;
        self.failed = failed;
        self.completed = completed;
    }

    /// Notes that a target has been sent.
    pub fn start(&mut self, key: PrKey)
        ensures
            final(self).wf(),
            final(self).batch_id == old(self).batch_id,
            final(self).action == old(self).action,
            final(self).targets@ == with_state(
                old(self).targets@,
                key,
                TargetProgressState::Running,
            ),
            final(self).targets.len() == old(self).targets.len(),
            forall|p: int|
                #![trigger final(self).targets[p]]
                0 <= p < old(self).targets.len() ==> {
                    let before = old(self).targets[p];
                    let names = |progress: TargetProgress|
                        progress.target.repository_id == key.repository_id
                            && progress.target.number == key.number;
                    &&& final(self).targets[p].target == before.target
                    &&& final(self).targets[p].state == (if names(before) && forall|i: int|
                        0 <= i < p ==> !names(#[trigger] old(self).targets[i]) {
                        TargetProgressState::Running
                    } else {
                        before.state
                    })
                },
    {
        proof {
            lemma_with_state_at(self.targets@, key, TargetProgressState::Running);
        }
        self.set_state(key, TargetProgressState::Running);
    }

    /// Notes how a target's action ended.
    pub fn record(&mut self, key: PrKey, outcome: ActionOutcome)
        ensures
            final(self).wf(),
            final(self).batch_id == old(self).batch_id,
            final(self).action == old(self).action,
            final(self).targets@ == with_state(old(self).targets@, key, outcome_state(outcome)),
            final(self).targets.len() == old(self).targets.len(),
            forall|p: int|
                #![trigger final(self).targets[p]]
                0 <= p < old(self).targets.len() ==> {
                    let before = old(self).targets[p];
                    let names = |progress: TargetProgress|
                        progress.target.repository_id == key.repository_id
                            && progress.target.number == key.number;
                    &&& final(self).targets[p].target == before.target
                    &&& final(self).targets[p].state == (if names(before) && forall|i: int|
                        0 <= i < p ==> !names(#[trigger] old(self).targets[i]) {
                        match outcome {
                            ActionOutcome::Succeeded { detail, merge_sha } =>
                                TargetProgressState::Succeeded { detail, merge_sha },
                            ActionOutcome::Rejected { reason } => TargetProgressState::Rejected {
                                reason,
                            },
                        }
                    } else {
                        before.state
                    })
                },
    {
        proof {
            lemma_with_state_at(self.targets@, key, outcome_state(outcome));
        }
        let state = match outcome {
            ActionOutcome::Succeeded { detail, merge_sha } => TargetProgressState::Succeeded {
                detail,
                merge_sha,
            },
            ActionOutcome::Rejected { reason } => TargetProgressState::Rejected { reason },
        };
        self.set_state(key, state);
    }

    /// Notes that a target's action failed for good, and why.
    pub fn record_failure(&mut self, key: PrKey, detail: String)
        ensures
            final(self).wf(),
            final(self).batch_id == old(self).batch_id,
            final(self).action == old(self).action,
            final(self).targets@ == with_state(
                old(self).targets@,
                key,
                TargetProgressState::Failed { detail },
            ),
            final(self).targets.len() == old(self).targets.len(),
            forall|p: int|
                #![trigger final(self).targets[p]]
                0 <= p < old(self).targets.len() ==> {
                    let before = old(self).targets[p];
                    let names = |progress: TargetProgress|
                        progress.target.repository_id == key.repository_id
                            && progress.target.number == key.number;
                    &&& final(self).targets[p].target == before.target
                    &&& final(self).targets[p].state == (if names(before) && forall|i: int|
                        0 <= i < p ==> !names(#[trigger] old(self).targets[i]) {
                        TargetProgressState::Failed { detail }
                    } else {
                        before.state
                    })
                },
    {
        proof {
            lemma_with_state_at(self.targets@, key, TargetProgressState::Failed { detail });
        }
        self.set_state(key, TargetProgressState::Failed { detail });
    }

    /// Notes how one target's call ended. A failure is that target's alone.
    pub fn settle(&mut self, target: &PrTarget, outcome: Result<ActionOutcome, String>)
        ensures
            final(self).wf(),
            final(self).batch_id == old(self).batch_id,
            final(self).action == old(self).action,
            final(self).targets@ == with_state(
                old(self).targets@,
                target.spec_key(),
                landed_state(outcome),
            ),
            final(self).targets.len() == old(self).targets.len(),
            forall|p: int|
                #![trigger final(self).targets[p]]
                0 <= p < old(self).targets.len() ==> {
                    let before = old(self).targets[p];
                    let names = |progress: TargetProgress|
                        progress.target.repository_id == target.repository_id
                            && progress.target.number == target.number;
                    &&& final(self).targets[p].target == before.target
                    &&& final(self).targets[p].state == (if names(before) && forall|i: int|
                        0 <= i < p ==> !names(#[trigger] old(self).targets[i]) {
                        match outcome {
                            Ok(ActionOutcome::Succeeded { detail, merge_sha }) =>
                                TargetProgressState::Succeeded { detail, merge_sha },
                            Ok(ActionOutcome::Rejected { reason }) =>
                                TargetProgressState::Rejected { reason },
                            Err(detail) => TargetProgressState::Failed { detail },
                        }
                    } else {
                        before.state
                    })
                },
    {
        proof {
            lemma_with_state_at(self.targets@, target.spec_key(), landed_state(outcome));
        }
        match outcome {
            Ok(outcome) => self.record(target.key(), outcome),
            Err(detail) => self.record_failure(target.key(), detail),
        }
    }

    /// The finished batch as it is kept, stamped with the installation, who asked for it and
    /// when it ran; nothing while a target has yet to settle.
    pub fn completed_record(
        &self,
        installation_id: u64,
        requested_by: UserId,
        retried_from: Option<String>,
        started_at: u64,
        completed_at: u64,
    ) -> (record: Option<BatchRecord>)
        requires
            self.wf(),
        ensures
            record is Some <==> self.completed,
            record matches Some(record) ==> {
                &&& record.batch_id == self.batch_id
                &&& record.installation_id == installation_id
                &&& record.action == self.action
                &&& record.requested_by == requested_by
                &&& record.retried_from == retried_from
                &&& record.started_at == started_at
                &&& record.completed_at == completed_at
                &&& record.succeeded == self.succeeded
                &&& record.rejected == self.rejected
                &&& record.failed == self.failed
                &&& record.targets.len() == self.targets.len()
                &&& forall|i: int|
                    0 <= i < self.targets.len() ==> #[trigger] records(
                        record.targets[i],
                        self.targets[i],
                    )
                &&& forall|i: int|
                    #![trigger record.targets[i]]
                    0 <= i < self.targets.len() ==> {
                        let target = self.targets[i].target;
                        &&& record.targets[i].repository_id == target.repository_id
                        &&& record.targets[i].owner == target.owner
                        &&& record.targets[i].repo == target.repo
                        &&& record.targets[i].number == target.number
                        &&& record.targets[i].title == target.title
                        &&& record.targets[i].html_url == target.html_url
                        &&& record.targets[i].head_sha == Some(target.expected_sha)
                        &&& match self.targets[i].state {
                            TargetProgressState::Succeeded { detail, merge_sha } =>
                                record.targets[i].outcome == (TargetOutcome::Succeeded {
                                    detail,
                                    merge_sha,
                                }),
                            TargetProgressState::Rejected { reason } => record.targets[i].outcome
                                == (TargetOutcome::Rejected { reason }),
                            TargetProgressState::Failed { detail } => record.targets[i].outcome
                                == (TargetOutcome::Failed { detail }),
                            _ => false,
                        }
                    }
            },
    {
        if !self.completed {
            return None;
        }
        let mut targets: Vec<BatchTargetRecord> = Vec::new();
        let mut i: usize = 0;
        while i < self.targets.len()
            invariant
                i <= self.targets.len(),
                targets.len() == i,
                all_settled(self.targets@),
                forall|k: int| 0 <= k < i ==> #[trigger] records(targets[k], self.targets[k]),
            decreases self.targets.len() - i,
        {
            let progress: &TargetProgress = &self.targets[i];
            assert(is_settled(self.targets@[i as int].state));
            let outcome = match &progress.state {
                TargetProgressState::Succeeded { detail, merge_sha } => TargetOutcome::Succeeded {
                    detail: detail.clone(),
                    merge_sha: clone_text(merge_sha),
                },
                TargetProgressState::Rejected { reason } => TargetOutcome::Rejected {
                    reason: reason.clone(),
                },
                TargetProgressState::Failed { detail } => TargetOutcome::Failed {
                    detail: detail.clone(),
                },
                _ => {
                    assert(false);
                    return None;
                },
            };
            targets.push(
                BatchTargetRecord {
                    repository_id: progress.target.repository_id,
                    owner: progress.target.owner.clone(),
                    repo: progress.target.repo.clone(),
                    number: progress.target.number,
                    title: progress.target.title.clone(),
                    html_url: progress.target.html_url.clone(),
                    head_sha: Some(progress.target.expected_sha.clone()),
                    outcome,
                },
            );
            assert(records(targets[i as int], self.targets[i as int]));
            i += 1;
        }
        proof {
            assert forall|i: int| 0 <= i < self.targets.len() implies records(
                #[trigger] targets[i],
                self.targets[i],
            ) by {}
        }
        Some(
            BatchRecord {
                batch_id: self.batch_id.clone(),
                installation_id,
                action: self.action,
                requested_by,
                retried_from,
                started_at,
                completed_at,
                succeeded: self.succeeded,
                rejected: self.rejected,
                failed: self.failed,
                targets,
            },
        )
    }

    /// The line a finished batch is logged with: every column of its tally.
    pub fn outcome(&self) -> (line: String)
        ensures
            line@ == decimal(self.succeeded as nat) + " succeeded, "@ + decimal(
                self.rejected as nat,
            ) + " rejected, "@ + decimal(self.failed as nat) + " failed of "@ + decimal(
                self.targets@.len(),
            ) + " targets"@,
    {
        let mut line = decimal_text(self.succeeded);
        line.append(" succeeded, ");
        line.append(decimal_text(self.rejected).as_str());
        line.append(" rejected, ");
        line.append(decimal_text(self.failed).as_str());
        line.append(" failed of ");
        line.append(decimal_text(self.targets.len() as u64).as_str());
        line.append(" targets");
        line
    }
}

/// A batch with nothing settled has nothing in any column.
proof fn lemma_tally_unsettled(targets: Seq<TargetProgress>)
    requires
        forall|i: int| 0 <= i < targets.len() ==> !is_settled(#[trigger] targets[i].state),
    ensures
        tally(targets, Column::Succeeded) == 0,
        tally(targets, Column::Rejected) == 0,
        tally(targets, Column::Failed) == 0,
    decreases targets.len(),
{
    if targets.len() > 0 {
        let shorter = targets.drop_last();
        assert forall|i: int| 0 <= i < shorter.len() implies !is_settled(
            #[trigger] shorter[i].state,
        ) by {
            assert(!is_settled(targets[i].state));
        }
        lemma_tally_unsettled(shorter);
        assert(!is_settled(targets[targets.len() - 1].state));
    }
}

/// The columns of a finished batch add up to its targets; those of an unfinished one do not
/// reach them.
pub proof fn law_the_tally_of_a_finished_batch_is_its_size(progress: BatchProgress)
    requires
        progress.wf(),
    ensures
        progress.succeeded + progress.rejected + progress.failed <= progress.targets@.len(),
        progress.completed <==> progress.succeeded + progress.rejected + progress.failed
            == progress.targets@.len(),
{
    lemma_tally_sum(progress.targets@);
}

proof fn lemma_tally_sum(targets: Seq<TargetProgress>)
    ensures
        tally(targets, Column::Succeeded) + tally(targets, Column::Rejected) + tally(
            targets,
            Column::Failed,
        ) <= targets.len(),
        all_settled(targets) <==> tally(targets, Column::Succeeded) + tally(
            targets,
            Column::Rejected,
        ) + tally(targets, Column::Failed) == targets.len(),
    decreases targets.len(),
{
    if targets.len() > 0 {
        let shorter = targets.drop_last();
        lemma_tally_sum(shorter);
        if all_settled(targets) {
            assert forall|i: int| 0 <= i < shorter.len() implies is_settled(
                #[trigger] shorter[i].state,
            ) by {
                assert(is_settled(targets[i].state));
            }
            assert(is_settled(targets[targets.len() - 1].state));
        }
        if all_settled(shorter) && is_settled(targets.last().state) {
            assert forall|i: int| 0 <= i < targets.len() implies is_settled(
                #[trigger] targets[i].state,
            ) by {
                if i < shorter.len() {
                    assert(is_settled(shorter[i].state));
                }
            }
        }
    }
}

/// Where a key stands does not depend on what has become of any target.
proof fn lemma_place_ignores_states(
    targets: Seq<TargetProgress>,
    key: PrKey,
    state: TargetProgressState,
    sought: PrKey,
)
    ensures
        place_of(with_state(targets, key, state), sought) == place_of(targets, sought),
{
    let after = with_state(targets, key, state);
    lemma_place_of(targets, key);
    lemma_place_of(targets, sought);
    let place = place_of(targets, sought);
    assert forall|i: int| 0 <= i < place implies (#[trigger] after[i]).target.spec_key()
        != sought by {
        assert(targets[i].target.spec_key() != sought);
    }
    lemma_place_unique(after, sought, place);
}

/// The calls of a round may land in any order: two targets settled one after the other come to
/// the same as settled the other way round.
pub proof fn law_the_order_of_landing_does_not_matter(
    targets: Seq<TargetProgress>,
    left: PrKey,
    left_outcome: Result<ActionOutcome, String>,
    right: PrKey,
    right_outcome: Result<ActionOutcome, String>,
)
    requires
        left != right,
    ensures
        with_state(
            with_state(targets, left, landed_state(left_outcome)),
            right,
            landed_state(right_outcome),
        ) == with_state(
            with_state(targets, right, landed_state(right_outcome)),
            left,
            landed_state(left_outcome),
        ),
{
    lemma_place_of(targets, left);
    lemma_place_of(targets, right);
    lemma_place_ignores_states(targets, left, landed_state(left_outcome), right);
    lemma_place_ignores_states(targets, right, landed_state(right_outcome), left);
    assert(with_state(
        with_state(targets, left, landed_state(left_outcome)),
        right,
        landed_state(right_outcome),
    ) =~= with_state(
        with_state(targets, right, landed_state(right_outcome)),
        left,
        landed_state(left_outcome),
    ));
}

/// What `with_state` does where a key names one target alone.
pub proof fn lemma_with_state(
    targets: Seq<TargetProgress>,
    place: int,
    state: TargetProgressState,
)
    requires
        0 <= place < targets.len(),
        forall|i: int, j: int|
            0 <= i < targets.len() && 0 <= j < targets.len() && i != j ==> (
            #[trigger] targets[i]).target.spec_key() != (#[trigger] targets[j]).target.spec_key(),
    ensures
        with_state(targets, targets[place].target.spec_key(), state) == targets.update(
            place,
            TargetProgress { target: targets[place].target, state },
        ),
{
    lemma_place_unique(targets, targets[place].target.spec_key(), place);
}

/// What `with_state` does, target by target: the first with the key changes, and no other.
proof fn lemma_with_state_at(
    targets: Seq<TargetProgress>,
    key: PrKey,
    state: TargetProgressState,
)
    ensures
        with_state(targets, key, state).len() == targets.len(),
        forall|p: int|
            #![trigger with_state(targets, key, state)[p]]
            0 <= p < targets.len() ==> {
                let names = |progress: TargetProgress|
                    progress.target.repository_id == key.repository_id && progress.target.number
                        == key.number;
                &&& with_state(targets, key, state)[p].target == targets[p].target
                &&& with_state(targets, key, state)[p].state == (if names(targets[p])
                    && forall|i: int| 0 <= i < p ==> !names(#[trigger] targets[i]) {
                    state
                } else {
                    targets[p].state
                })
            },
{
    lemma_place_of(targets, key);
    let place = place_of(targets, key);
    assert forall|p: int| 0 <= p < targets.len() implies {
        let names = |progress: TargetProgress|
            progress.target.repository_id == key.repository_id && progress.target.number
                == key.number;
        &&& (#[trigger] with_state(targets, key, state)[p]).target == targets[p].target
        &&& with_state(targets, key, state)[p].state == (if names(targets[p]) && forall|i: int|
            0 <= i < p ==> !names(#[trigger] targets[i]) {
            state
        } else {
            targets[p].state
        })
    } by {
        let names = |progress: TargetProgress|
            progress.target.repository_id == key.repository_id && progress.target.number
                == key.number;
        assert forall|i: int| 0 <= i < targets.len() implies (names(#[trigger] targets[i])
            <==> targets[i].target.spec_key() == key) by {}
        if p == place {
            assert forall|i: int| 0 <= i < p implies !names(#[trigger] targets[i]) by {
                assert(targets[i].target.spec_key() != key);
            }
        } else if p < place {
            assert(targets[p].target.spec_key() != key);
        } else {
            assert(names(targets[place]));
        }
    }
}

/// Each target of a finished batch is kept under its own name: the record's entry at a place is
/// of the pull request at that place of the batch, at the head it was sent with, and ended as
/// the target did.
pub proof fn law_a_finished_batch_is_kept_target_by_target(
    progress: BatchProgress,
    installation_id: u64,
    requested_by: UserId,
    retried_from: Option<String>,
    started_at: u64,
    completed_at: u64,
    record: Option<BatchRecord>,
    i: int,
)
    requires
        progress.wf(),
        call_ensures(
            BatchProgress::completed_record,
            (&progress, installation_id, requested_by, retried_from, started_at, completed_at),
            record,
        ),
        0 <= i < progress.targets.len(),
    ensures
        progress.targets[i].state is Queued || progress.targets[i].state is Running ==> record
            is None,
        record matches Some(record) ==> {
            let kept = record.targets[i];
            let target = progress.targets[i].target;
            &&& record.targets.len() == progress.targets.len()
            &&& kept.repository_id == target.repository_id
            &&& kept.owner == target.owner
            &&& kept.repo == target.repo
            &&& kept.number == target.number
            &&& kept.title == target.title
            &&& kept.html_url == target.html_url
            &&& kept.head_sha == Some(target.expected_sha)
            &&& match progress.targets[i].state {
                TargetProgressState::Succeeded { detail, merge_sha } => kept.outcome == (
                TargetOutcome::Succeeded { detail, merge_sha }),
                TargetProgressState::Rejected { reason } => kept.outcome == (
                TargetOutcome::Rejected { reason }),
                TargetProgressState::Failed { detail } => kept.outcome == (TargetOutcome::Failed {
                    detail,
                }),
                _ => false,
            }
        },
{
    if progress.completed {
        assert(is_settled(progress.targets@[i].state));
    }
}

/// The tally counts the targets: so many have succeeded, so many were rejected and so many
/// failed; and a batch is complete exactly when no target is queued or running.
pub proof fn law_the_tally_counts_the_targets(progress: BatchProgress)
    requires
        progress.wf(),
    ensures
        progress.succeeded == progress.targets@.filter(
            |target: TargetProgress| target.state is Succeeded,
        ).len(),
        progress.rejected == progress.targets@.filter(
            |target: TargetProgress| target.state is Rejected,
        ).len(),
        progress.failed == progress.targets@.filter(
            |target: TargetProgress| target.state is Failed,
        ).len(),
        progress.completed <==> forall|i: int|
            0 <= i < progress.targets.len() ==> (#[trigger] progress.targets[i]).state !is Queued
                && progress.targets[i].state !is Running,
{
    lemma_tally_filters(
        progress.targets@,
        Column::Succeeded,
        |target: TargetProgress| target.state is Succeeded,
    );
    lemma_tally_filters(
        progress.targets@,
        Column::Rejected,
        |target: TargetProgress| target.state is Rejected,
    );
    lemma_tally_filters(
        progress.targets@,
        Column::Failed,
        |target: TargetProgress| target.state is Failed,
    );
    if progress.completed {
        assert forall|i: int| 0 <= i < progress.targets.len() implies (
        #[trigger] progress.targets[i]).state !is Queued && progress.targets[i].state
            !is Running by {
            assert(is_settled(progress.targets@[i].state));
        }
    }
    if forall|i: int|
        0 <= i < progress.targets.len() ==> (#[trigger] progress.targets[i]).state !is Queued
            && progress.targets[i].state !is Running {
        assert forall|i: int| 0 <= i < progress.targets@.len() implies is_settled(
            #[trigger] progress.targets@[i].state,
        ) by {
            assert(progress.targets[i].state !is Queued);
        }
    }
}

proof fn lemma_tally_filters(
    targets: Seq<TargetProgress>,
    column: Column,
    pred: spec_fn(TargetProgress) -> bool,
)
    requires
        forall|target: TargetProgress| #[trigger] pred(target) <==> counts(target.state, column),
    ensures
        tally(targets, column) == targets.filter(pred).len(),
    decreases targets.len(),
{
    reveal(Seq::filter);
    if targets.len() > 0 {
        lemma_tally_filters(targets.drop_last(), column, pred);
        assert(pred(targets.last()) <==> counts(targets.last().state, column));
    }
}

} // verus!
