//! Telling every pull request whose row a prune removed that it is gone.
//!
//! The rows a prune removes are queued where they are removed, and the queue is drained
//! afterwards in steps that are each safe to run again. The drain goes by the queue alone,
//! never by what a prune's own step gave back.

use vstd::prelude::*;

use crate::model::{PrKey, PrRecord, Retirement};
use crate::projection::{
    law_every_prune_queues_what_it_removed, lemma_filter_none, stale_pull, waits_after, Tables,
};
use crate::pull_request::{outlives, ClosedRequest};

verus! {

/// A prune that has landed. There is nothing to read in it; it is what a drain is owed, and
/// the chain that asked for the prune hands it out.
#[derive(Debug, PartialEq, Eq)]
pub struct Pruned {
    landed: (),
}

impl Pruned {
    pub(crate) fn landed() -> (pruned: Pruned) {
        Pruned { landed: () }
    }
}

/// What a drain sends and then forgets.
#[derive(Debug, PartialEq, Eq)]
pub struct Drain {
    /// Each pull request to close, with the fence its own prune recorded, oldest first.
    pub closes: Vec<(PrKey, ClosedRequest)>,
    /// The last retirement read: forget everything up to it, once every close is sent.
    pub acknowledge: Option<u64>,
}

/// The closing a retirement turns into.
pub open spec fn close_of(retirement: Retirement) -> (PrKey, ClosedRequest) {
    (retirement.key, ClosedRequest { synced_before: retirement.synced_before })
}

pub open spec fn closes_of(pending: Seq<Retirement>) -> Seq<(PrKey, ClosedRequest)> {
    pending.map_values(|retirement: Retirement| close_of(retirement))
}

/// What a drain does with what is pending, after a prune. The acknowledgement covers exactly
/// what was read; anything queued in between waits for the next drain.
pub fn retire_pending(pruned: Pruned, pending: &Vec<Retirement>) -> (drain: Drain)
    ensures
        drain.closes@ == closes_of(pending@),
        drain.acknowledge == (if pending.len() == 0 {
            None
        } else {
            Some(pending@.last().id)
        }),
{
    let mut closes: Vec<(PrKey, ClosedRequest)> = Vec::new();
    let mut i: usize = 0;
    while i < pending.len()
        invariant
            i <= pending.len(),
            closes@ == closes_of(pending@.take(i as int)),
        decreases pending.len() - i,
    {
        let retirement: Retirement = pending[i];
        closes.push((retirement.key, ClosedRequest { synced_before: retirement.synced_before }));
        assert(closes_of(pending@.take(i + 1)) =~= closes_of(pending@.take(i as int)).push(
            close_of(pending[i as int]),
        ));
        i += 1;
    }
    assert(pending@.take(i as int) == pending@);
    let acknowledge: Option<u64> = if pending.len() == 0 {
        None
    } else {
        Some(pending[pending.len() - 1].id)
    };
    Drain { closes, acknowledge }
}

impl Drain {
    /// How many pull requests are told.
    pub fn told(&self) -> (told: usize)
        ensures
            told == self.closes.len(),
    {
        self.closes.len()
    }

    /// The drain is through: every close is sent, and then the acknowledgement is made.
    pub fn through(self) -> (drained: Drained)
        ensures
            drained.told == self.closes.len(),
    {
        Drained { told: self.closes.len() }
    }
}

/// A drain that is through. What a sweep does after its drain is owed one.
#[derive(Debug, PartialEq, Eq)]
pub struct Drained {
    /// How many pull requests were told.
    pub told: usize,
}

/// No pull request that a prune removed is left untold: a drain of the outbox closes each one
/// under the fence of the prune that removed it.
pub proof fn law_every_pruned_pull_request_is_told_under_its_fence(
    before: Tables,
    after: Tables,
    gone: spec_fn(PrRecord) -> bool,
    synced_before: Option<u64>,
    keys: Seq<PrKey>,
    row: PrRecord,
    pruned: Pruned,
    drain: Drain,
)
    requires
        after.pruned(before, gone, synced_before, keys),
        before.pull_requests@.contains(row),
        !after.pull_requests@.contains(row),
        call_ensures(retire_pending, (pruned, &after.retirements), drain),
    ensures
        drain.closes@.contains((row.spec_key(), ClosedRequest { synced_before })),
{
    law_every_prune_queues_what_it_removed(before, after, gone, synced_before, keys, row);
    let i = choose|i: int|
        before.retirements.len() <= i < after.retirements.len() && (
        #[trigger] after.retirements[i]).key == row.spec_key()
            && after.retirements[i].synced_before == synced_before && after.retirements[i].id
            > before.last_retirement_id;
    assert(drain.closes@[i] == close_of(after.retirements[i]));
}

/// A drain that is acknowledged leaves nothing of what it read in the outbox.
pub proof fn law_an_acknowledged_drain_empties_the_outbox(
    tables: Tables,
    acknowledged: Tables,
    pruned: Pruned,
    drain: Drain,
)
    requires
        tables.wf(),
        call_ensures(retire_pending, (pruned, &tables.retirements), drain),
        drain.acknowledge is Some,
        acknowledged.acknowledges(tables, drain.acknowledge->0),
    ensures
        acknowledged.retirements.len() == 0,
{
    let queue = tables.retirements@;
    let waits = waits_after(drain.acknowledge->0);
    assert forall|i: int| 0 <= i < queue.len() implies !waits(#[trigger] queue[i]) by {
        if i < queue.len() - 1 {
            assert(tables.retirements[i].id < tables.retirements[queue.len() - 1].id);
        }
    }
    lemma_filter_none(queue, waits);
}

/// The row and the object agree on a fence: of a pull request that was not listed, the object
/// outlives the closing exactly where the prune spared the row.
pub proof fn law_the_row_and_the_object_agree_on_the_fence(
    row: PrRecord,
    live: Seq<u64>,
    synced_before: u64,
)
    requires
        !live.contains(row.number),
    ensures
        stale_pull(row.repository_id, live, synced_before)(row) <==> !outlives(
            Some(row.synced_at),
            Some(synced_before),
        ),
{
}

/// A drain closes what is pending one by one, oldest first: each pull request under its own key
/// and with the fence that was queued with it; and it forgets up to the last of them, and nothing
/// where nothing is pending.
pub proof fn law_a_drain_closes_what_is_pending_one_by_one(
    pruned: Pruned,
    pending: Vec<Retirement>,
    drain: Drain,
    told: usize,
    drained: Drained,
)
    requires
        call_ensures(retire_pending, (pruned, &pending), drain),
        call_ensures(Drain::told, (&drain,), told),
        call_ensures(Drain::through, (drain,), drained),
    ensures
        drain.closes.len() == pending.len(),
        forall|i: int|
            #![trigger pending[i]]
            0 <= i < pending.len() ==> drain.closes[i].0.repository_id
                == pending[i].key.repository_id && drain.closes[i].0.number == pending[i].key.number
                && drain.closes[i].1.synced_before == pending[i].synced_before,
        pending.len() == 0 ==> drain.acknowledge is None,
        pending.len() > 0 ==> drain.acknowledge == Some(pending[pending.len() - 1].id),
        told == pending.len(),
        drained.told == pending.len(),
{
    assert forall|i: int|
        #![trigger pending[i]]
        0 <= i < pending.len() implies drain.closes@[i] == close_of(pending[i]) by {}
}

} // verus!
