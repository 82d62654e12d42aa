//! What the audit view reads of an installation's batches: those running, those finished
//! last, and one by its id.
//!
//! Deployments may share a projection, so every read is held to one installation. A read gives
//! places in the tables.

use vstd::prelude::*;

use crate::progress::{BatchRecord, RunningBatch};
use crate::projection::{is_listed, is_recorded, other_batches, Tables};
use crate::text::same_text;

verus! {

/// What the projection holds of a batch.
#[derive(Clone, Copy, Debug, PartialEq, Eq, Structural)]
pub enum ProjectedBatch {
    /// The place of its record.
    Finished(usize),
    /// The place of its listing, while it runs.
    Running(usize),
}

/// A place holds a record of the installation.
pub open spec fn finished_in(batches: Seq<BatchRecord>, installation_id: u64, at: int) -> bool {
    0 <= at < batches.len() && batches[at].installation_id == installation_id
}

/// A place holds a listing of the installation.
pub open spec fn running_in(batches: Seq<RunningBatch>, installation_id: u64, at: int) -> bool {
    0 <= at < batches.len() && batches[at].installation_id == installation_id
}

/// One record comes before another: it finished later, or in the same second and was recorded
/// first.
pub open spec fn newer(batches: Seq<BatchRecord>, left: int, right: int) -> bool {
    batches[left].completed_at > batches[right].completed_at || (batches[left].completed_at
        == batches[right].completed_at && left < right)
}

/// The places are the first ones, newest first, of the installation's records among the first
/// `seen`, and at most `limit`.
pub open spec fn newest_first(
    batches: Seq<BatchRecord>,
    seen: int,
    installation_id: u64,
    limit: nat,
    places: Seq<usize>,
) -> bool {
    &&& places.len() <= limit
    &&& forall|i: int|
        0 <= i < places.len() ==> (#[trigger] places[i]) < seen && finished_in(
            batches,
            installation_id,
            places[i] as int,
        )
    &&& forall|i: int, j: int|
        0 <= i < j < places.len() ==> newer(
            batches,
            #[trigger] places[i] as int,
            #[trigger] places[j] as int,
        )
    &&& forall|at: usize|
        at < seen && finished_in(batches, installation_id, at as int) && !(
        #[trigger] places.contains(at)) ==> places.len() == limit && forall|i: int|
            0 <= i < places.len() ==> newer(batches, #[trigger] places[i] as int, at as int)
}

/// The places of an installation's running batches, in the order they were listed in.
pub fn running_batches(tables: &Tables, installation_id: u64) -> (places: Vec<usize>)
    ensures
        forall|i: int, j: int|
            0 <= i < j < places.len() ==> #[trigger] places[i] < #[trigger] places[j],
        forall|at: usize|
            #[trigger] places@.contains(at) <==> running_in(
                tables.running_batches@,
                installation_id,
                at as int,
            ),
{
    let mut places: Vec<usize> = Vec::new();
    let mut i: usize = 0;
    while i < tables.running_batches.len()
        invariant
            i <= tables.running_batches.len(),
            forall|k: int| 0 <= k < places.len() ==> #[trigger] places[k] < i,
            forall|k: int, l: int|
                0 <= k < l < places.len() ==> #[trigger] places[k] < #[trigger] places[l],
            forall|at: usize|
                #[trigger] places@.contains(at) <==> at < i && running_in(
                    tables.running_batches@,
                    installation_id,
                    at as int,
                ),
        decreases tables.running_batches.len() - i,
    {
        if tables.running_batches[i].installation_id == installation_id {
            let ghost before = places@;
            places.push(i);
            proof {
                assert forall|at: usize| #[trigger]
                    places@.contains(at) <==> before.contains(at) || at == i by {
                    if before.contains(at) {
                        let k = choose|k: int| 0 <= k < before.len() && before[k] == at;
                        assert(places@[k] == at);
                    }
                    if at == i {
                        assert(places@[before.len() as int] == at);
                    }
                }
            }
        }
        i += 1;
    }
    places
}

/// The places of the batches an installation finished last, newest first.
pub fn recent_batches(tables: &Tables, installation_id: u64, limit: u32) -> (places: Vec<usize>)
    ensures
        newest_first(
            tables.batches@,
            tables.batches.len() as int,
            installation_id,
            limit as nat,
            places@,
        ),
{
    let ghost batches = tables.batches@;
    let mut places: Vec<usize> = Vec::new();
    let mut i: usize = 0;
    while i < tables.batches.len()
        invariant
            batches == tables.batches@,
            i <= batches.len(),
            newest_first(batches, i as int, installation_id, limit as nat, places@),
        decreases tables.batches.len() - i,
    {
        if tables.batches[i].installation_id == installation_id {
            let completed_at: u64 = tables.batches[i].completed_at;
            let mut at: usize = 0;
            while at < places.len() && tables.batches[places[at]].completed_at >= completed_at
                invariant
                    batches == tables.batches@,
                    i < batches.len(),
                    completed_at == batches[i as int].completed_at,
                    newest_first(batches, i as int, installation_id, limit as nat, places@),
                    at <= places.len(),
                    forall|k: int|
                        0 <= k < at ==> newer(batches, #[trigger] places[k] as int, i as int),
                decreases places.len() - at,
            {
                at += 1;
            }
            let ghost before = places@;
            proof {
                assert forall|k: int| at <= k < before.len() implies newer(
                    batches,
                    i as int,
                    #[trigger] before[k] as int,
                ) by {
                    if k > at {
                        assert(newer(batches, before[at as int] as int, before[k] as int));
                    }
                }
            }
            if places.len() < limit as usize {
                places.insert(at, i);
                proof {
                    lemma_goes_in(
                        batches,
                        i as int,
                        installation_id,
                        limit as nat,
                        before,
                        at as int,
                        i,
                    );
                }
            } else if at < places.len() {
                places.pop();
                places.insert(at, i);
                proof {
                    let kept = before.drop_last();
                    assert(places@ =~= kept.insert(at as int, i));
                    lemma_pushes_out(
                        batches,
                        i as int,
                        installation_id,
                        limit as nat,
                        before,
                        at as int,
                        i,
                    );
                }
            }
        }
        i += 1;
    }
    places
}

/// A newer record goes in where there is room.
proof fn lemma_goes_in(
    batches: Seq<BatchRecord>,
    seen: int,
    installation_id: u64,
    limit: nat,
    places: Seq<usize>,
    at: int,
    place: usize,
)
    requires
        newest_first(batches, seen, installation_id, limit, places),
        places.len() < limit,
        place == seen,
        finished_in(batches, installation_id, seen),
        0 <= at <= places.len(),
        forall|k: int| 0 <= k < at ==> newer(batches, #[trigger] places[k] as int, seen),
        forall|k: int|
            at <= k < places.len() ==> newer(batches, seen, #[trigger] places[k] as int),
    ensures
        newest_first(batches, seen + 1, installation_id, limit, places.insert(at, place)),
{
    let after = places.insert(at, place);
    assert forall|p: usize|
        p < seen + 1 && finished_in(batches, installation_id, p as int) implies #[trigger]
    after.contains(p) by {
        if p == seen {
            assert(after[at] == p);
        } else {
            assert(places.contains(p));
            let k = choose|k: int| 0 <= k < places.len() && places[k] == p;
            assert(after[if k < at {
                k
            } else {
                k + 1
            }] == p);
        }
    }
}

/// A newer record pushes the oldest out where there is none.
proof fn lemma_pushes_out(
    batches: Seq<BatchRecord>,
    seen: int,
    installation_id: u64,
    limit: nat,
    places: Seq<usize>,
    at: int,
    place: usize,
)
    requires
        newest_first(batches, seen, installation_id, limit, places),
        places.len() == limit,
        place == seen,
        finished_in(batches, installation_id, seen),
        0 <= at < places.len(),
        forall|k: int| 0 <= k < at ==> newer(batches, #[trigger] places[k] as int, seen),
        forall|k: int|
            at <= k < places.len() ==> newer(batches, seen, #[trigger] places[k] as int),
    ensures
        newest_first(
            batches,
            seen + 1,
            installation_id,
            limit,
            places.drop_last().insert(at, place),
        ),
{
    let kept = places.drop_last();
    let after = kept.insert(at, place);
    let oldest = places.last();
    assert forall|i: int| 0 <= i < after.len() implies newer(
        batches,
        #[trigger] after[i] as int,
        oldest as int,
    ) by {
        if i < at {
            assert(newer(batches, places[i] as int, places[places.len() - 1] as int));
        } else if i > at {
            assert(newer(batches, places[i - 1] as int, places[places.len() - 1] as int));
        }
    }
    assert forall|p: usize|
        p < seen + 1 && finished_in(batches, installation_id, p as int) && !(
        #[trigger] after.contains(p)) implies after.len() == limit && forall|i: int|
        0 <= i < after.len() ==> newer(batches, #[trigger] after[i] as int, p as int) by {
        if p == seen {
            assert(after[at] == p);
        } else if places.contains(p) {
            let k = choose|k: int| 0 <= k < places.len() && places[k] == p;
            if k < places.len() - 1 {
                assert(after[if k < at {
                    k
                } else {
                    k + 1
                }] == p);
            }
        } else {
            assert(newer(batches, places[places.len() - 1] as int, p as int));
        }
    }
}

/// What the projection holds of an installation's batch: its record once it has finished, its
/// listing while it runs, and nothing of one it has never heard of, or that is another
/// installation's.
pub open spec fn projects(
    tables: Tables,
    installation_id: u64,
    batch_id: Seq<char>,
    held: Option<ProjectedBatch>,
) -> bool {
    match held {
        Some(ProjectedBatch::Finished(at)) => finished_in(
            tables.batches@,
            installation_id,
            at as int,
        ) && tables.batches[at as int].batch_id@ == batch_id,
        Some(ProjectedBatch::Running(at)) => running_in(
            tables.running_batches@,
            installation_id,
            at as int,
        ) && tables.running_batches[at as int].batch_id@ == batch_id && never_finished(
            tables,
            installation_id,
            batch_id,
        ),
        None => never_finished(tables, installation_id, batch_id) && not_running(
            tables,
            installation_id,
            batch_id,
        ),
    }
}

/// The installation has no record of the batch.
pub open spec fn never_finished(
    tables: Tables,
    installation_id: u64,
    batch_id: Seq<char>,
) -> bool {
    forall|i: int| #[trigger]
        finished_in(tables.batches@, installation_id, i) ==> tables.batches@[i].batch_id@
            != batch_id
}

/// The installation does not list the batch.
pub open spec fn not_running(tables: Tables, installation_id: u64, batch_id: Seq<char>) -> bool {
    forall|i: int| #[trigger]
        running_in(tables.running_batches@, installation_id, i)
            ==> tables.running_batches@[i].batch_id@ != batch_id
}

/// Reads what the projection holds of an installation's batch.
pub fn get_batch(tables: &Tables, installation_id: u64, batch_id: &str) -> (held: Option<
    ProjectedBatch,
>)
    ensures
        projects(*tables, installation_id, batch_id@, held),
{
    let mut i: usize = 0;
    while i < tables.batches.len()
        invariant
            i <= tables.batches.len(),
            forall|k: int| #[trigger]
                finished_in(tables.batches@, installation_id, k) && k < i
                    ==> tables.batches@[k].batch_id@ != batch_id@,
        decreases tables.batches.len() - i,
    {
        if tables.batches[i].installation_id == installation_id && same_text(
            tables.batches[i].batch_id.as_str(),
            batch_id,
        ) {
            return Some(ProjectedBatch::Finished(i));
        }
        i += 1;
    }
    let mut j: usize = 0;
    while j < tables.running_batches.len()
        invariant
            j <= tables.running_batches.len(),
            never_finished(*tables, installation_id, batch_id@),
            forall|k: int| #[trigger]
                running_in(tables.running_batches@, installation_id, k) && k < j
                    ==> tables.running_batches@[k].batch_id@ != batch_id@,
        decreases tables.running_batches.len() - j,
    {
        if tables.running_batches[j].installation_id == installation_id && same_text(
            tables.running_batches[j].batch_id.as_str(),
            batch_id,
        ) {
            return Some(ProjectedBatch::Running(j));
        }
        j += 1;
    }
    None
}

/// A batch reads as running once it is listed, and as finished once it is recorded.
pub proof fn law_a_batch_reads_as_running_and_then_as_finished(
    before: Tables,
    listed: Tables,
    running: RunningBatch,
    recorded: Tables,
    finished: BatchRecord,
    first: Option<ProjectedBatch>,
    second: Option<ProjectedBatch>,
)
    requires
        !is_listed(before.running_batches@, running.batch_id@),
        !is_recorded(before.batches@, running.batch_id@),
        listed.listed(before, running),
        finished.batch_id@ == running.batch_id@,
        finished.installation_id == running.installation_id,
        recorded.recorded(listed, finished),
        projects(listed, running.installation_id, running.batch_id@, first),
        projects(recorded, running.installation_id, running.batch_id@, second),
    ensures
        first matches Some(ProjectedBatch::Running(at)) && listed.running_batches@[at as int]
            == running,
        second matches Some(ProjectedBatch::Finished(at)) && recorded.batches@[at as int]
            == finished,
        not_running(recorded, running.installation_id, running.batch_id@),
{
    let id = running.batch_id@;
    let installation_id = running.installation_id;
    let listings = listed.running_batches@;
    assert(listings[listings.len() - 1] == running);
    assert(running_in(listings, installation_id, listings.len() - 1));
    assert forall|i: int| 0 <= i < before.running_batches@.len() implies (
    #[trigger] listings[i]).batch_id@ != id by {
        assert(before.running_batches@[i].batch_id@ != id);
    }
    let records = recorded.batches@;
    assert(!is_recorded(listed.batches@, id));
    assert(records[records.len() - 1] == finished);
    assert(finished_in(records, installation_id, records.len() - 1));
    assert forall|i: int| 0 <= i < before.batches@.len() implies (#[trigger] records[i]).batch_id@
        != id by {
        assert(before.batches@[i].batch_id@ != id);
    }
    let left = recorded.running_batches@;
    assert forall|i: int| #[trigger] running_in(left, installation_id, i) implies left[i].batch_id@
        != id by {
        let others = other_batches(id);
        assert(left == listings.filter(others));
        broadcast use vstd::seq_lib::group_filter_ensures;

        assert(others(left[i]));
    }
}

/// Another installation's batch is answered as one the projection has never heard of.
pub proof fn law_another_installations_batch_is_unknown(
    tables: Tables,
    installation_id: u64,
    batch_id: Seq<char>,
    held: Option<ProjectedBatch>,
)
    requires
        forall|i: int|
            0 <= i < tables.batches.len() && (#[trigger] tables.batches@[i]).batch_id@ == batch_id
                ==> tables.batches@[i].installation_id != installation_id,
        forall|i: int|
            0 <= i < tables.running_batches.len() && (
            #[trigger] tables.running_batches@[i]).batch_id@ == batch_id
                ==> tables.running_batches@[i].installation_id != installation_id,
        projects(tables, installation_id, batch_id, held),
    ensures
        held is None,
{
}

/// A read of an installation's running batches gives exactly its own listings, in the order they
/// were listed in.
pub proof fn law_a_read_lists_the_installations_running_batches(
    tables: Tables,
    installation_id: u64,
    places: Vec<usize>,
)
    requires
        call_ensures(running_batches, (&tables, installation_id), places),
    ensures
        forall|i: int|
            0 <= i < places.len() ==> (#[trigger] places[i]) < tables.running_batches.len()
                && tables.running_batches[places[i] as int].installation_id == installation_id,
        forall|at: usize|
            at < tables.running_batches.len() && tables.running_batches[at as int].installation_id
                == installation_id ==> #[trigger] places@.contains(at),
        forall|i: int, j: int|
            0 <= i < j < places.len() ==> #[trigger] places[i] < #[trigger] places[j],
{
    assert forall|i: int| 0 <= i < places.len() implies (#[trigger] places[i])
        < tables.running_batches.len()
        && tables.running_batches[places[i] as int].installation_id == installation_id by {
        assert(places@.contains(places@[i]));
    }
}

/// A read of the batches an installation finished last gives its own records only, at most as
/// many as asked for, those that finished last first, and of those that finished in one second
/// the one recorded first; and it leaves one out only where there are as many that come before
/// it.
pub proof fn law_a_read_gives_what_finished_last(
    tables: Tables,
    installation_id: u64,
    limit: u32,
    places: Vec<usize>,
)
    requires
        call_ensures(recent_batches, (&tables, installation_id, limit), places),
    ensures
        places.len() <= limit,
        forall|i: int|
            0 <= i < places.len() ==> (#[trigger] places[i]) < tables.batches.len()
                && tables.batches[places[i] as int].installation_id == installation_id,
        forall|i: int, j: int|
            0 <= i < j < places.len() ==> {
                let left = tables.batches[#[trigger] places[i] as int].completed_at;
                let right = tables.batches[#[trigger] places[j] as int].completed_at;
                left > right || (left == right && places[i] < places[j])
            },
        forall|at: usize|
            at < tables.batches.len() && tables.batches[at as int].installation_id
                == installation_id && !(#[trigger] places@.contains(at)) ==> places.len() == limit
                && forall|i: int|
                #![trigger places[i]]
                0 <= i < places.len() ==> tables.batches[places[i] as int].completed_at
                    > tables.batches[at as int].completed_at || (
                tables.batches[places[i] as int].completed_at
                    == tables.batches[at as int].completed_at && places[i] < at),
{
    let batches = tables.batches@;
    assert forall|at: usize|
        at < tables.batches.len() && tables.batches[at as int].installation_id == installation_id
            && !(#[trigger] places@.contains(at)) implies places.len() == limit && forall|i: int|
        #![trigger places[i]]
        0 <= i < places.len() ==> tables.batches[places[i] as int].completed_at
            > tables.batches[at as int].completed_at || (
        tables.batches[places[i] as int].completed_at == tables.batches[at as int].completed_at
            && places[i] < at) by {
        assert(finished_in(batches, installation_id, at as int));
        assert forall|i: int|
            #![trigger places[i]]
            0 <= i < places.len() implies newer(batches, places[i] as int, at as int) by {
            assert(newer(batches, places@[i] as int, at as int));
        }
    }
    assert forall|i: int, j: int| 0 <= i < j < places.len() implies {
        let left = tables.batches[#[trigger] places[i] as int].completed_at;
        let right = tables.batches[#[trigger] places[j] as int].completed_at;
        left > right || (left == right && places[i] < places[j])
    } by {
        assert(newer(batches, places@[i] as int, places@[j] as int));
    }
}

/// A batch reads as its own record where the installation has one, as its own listing where it
/// has that alone, and as nothing where it has neither.
pub proof fn law_what_a_batch_reads_as(
    tables: Tables,
    installation_id: u64,
    batch_id: &str,
    held: Option<ProjectedBatch>,
)
    requires
        call_ensures(get_batch, (&tables, installation_id, batch_id), held),
    ensures
        ({
            let finished = exists|i: int|
                0 <= i < tables.batches.len() && (#[trigger] tables.batches[i]).installation_id
                    == installation_id && tables.batches[i].batch_id@ == batch_id@;
            let running = exists|i: int|
                0 <= i < tables.running_batches.len() && (
                #[trigger] tables.running_batches[i]).installation_id == installation_id
                    && tables.running_batches[i].batch_id@ == batch_id@;
            &&& finished ==> (held matches Some(ProjectedBatch::Finished(at)) && at
                < tables.batches.len() && tables.batches[at as int].batch_id@ == batch_id@
                && tables.batches[at as int].installation_id == installation_id)
            &&& !finished && running ==> (held matches Some(ProjectedBatch::Running(at)) && at
                < tables.running_batches.len() && tables.running_batches[at as int].batch_id@
                == batch_id@ && tables.running_batches[at as int].installation_id
                == installation_id)
            &&& !finished && !running ==> held is None
        }),
{
    if exists|i: int|
        0 <= i < tables.batches.len() && (#[trigger] tables.batches[i]).installation_id
            == installation_id && tables.batches[i].batch_id@ == batch_id@ {
        let i = choose|i: int|
            0 <= i < tables.batches.len() && (#[trigger] tables.batches[i]).installation_id
                == installation_id && tables.batches[i].batch_id@ == batch_id@;
        assert(finished_in(tables.batches@, installation_id, i));
    }
    if exists|i: int|
        0 <= i < tables.running_batches.len() && (
        #[trigger] tables.running_batches[i]).installation_id == installation_id
            && tables.running_batches[i].batch_id@ == batch_id@ {
        let i = choose|i: int|
            0 <= i < tables.running_batches.len() && (
            #[trigger] tables.running_batches[i]).installation_id == installation_id
                && tables.running_batches[i].batch_id@ == batch_id@;
        assert(running_in(tables.running_batches@, installation_id, i));
    }
    if let Some(ProjectedBatch::Finished(at)) = held {
        assert(tables.batches[at as int].installation_id == installation_id);
    }
    if let Some(ProjectedBatch::Running(at)) = held {
        assert(tables.running_batches[at as int].installation_id == installation_id);
    }
}

} // verus!
