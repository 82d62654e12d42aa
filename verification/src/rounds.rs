//! How a batch of merges is split into the rounds that go out together.
//!
//! Two pull requests of one repository never share a round: merging the first moves the
//! base branch under the second. Each round takes the next pull request from up to a
//! bounded number of repositories, going round the repositories in the order the batch
//! first names them and picking up where the last round left off.
//!
//! The plan depends on the repositories alone, so it is made of positions in the batch.

use vstd::arithmetic::div_mod::{
    lemma_fundamental_div_mod, lemma_fundamental_div_mod_converse,
};
use vstd::arithmetic::mul::{lemma_mul_inequality, lemma_mul_is_commutative};
use vstd::prelude::*;

verus! {

/// The repositories of a batch, each once, in the order the batch first names them.
pub open spec fn first_named(ids: Seq<u64>) -> Seq<u64>
    decreases ids.len(),
{
    if ids.len() == 0 {
        Seq::empty()
    } else {
        let earlier = first_named(ids.drop_last());
        if earlier.contains(ids.last()) {
            earlier
        } else {
            earlier.push(ids.last())
        }
    }
}

/// The positions at which the batch names a repository, in batch order.
pub open spec fn positions(ids: Seq<u64>, id: u64) -> Seq<int>
    decreases ids.len(),
{
    if ids.len() == 0 {
        Seq::empty()
    } else {
        let earlier = positions(ids.drop_last(), id);
        if ids.last() == id {
            earlier.push(ids.len() - 1)
        } else {
            earlier
        }
    }
}

/// One queue of positions for each repository.
pub open spec fn queues(ids: Seq<u64>) -> Seq<Seq<int>> {
    first_named(ids).map_values(|id: u64| positions(ids, id))
}

/// What the visit numbered `visit` finds, as a sequence of none or one: visits go round
/// the queues, and the `k`th visit to a queue finds its `k`th position.
pub open spec fn visit_finds(queues: Seq<Seq<int>>, visit: int) -> Seq<int> {
    let queue = queues[visit % (queues.len() as int)];
    let turn = visit / (queues.len() as int);
    if turn < queue.len() {
        seq![queue[turn]]
    } else {
        Seq::empty()
    }
}

/// What the visits from `from` up to `to` find, in order.
pub open spec fn visits_find(queues: Seq<Seq<int>>, from: int, to: int) -> Seq<int>
    decreases to - from,
{
    if to <= from {
        Seq::empty()
    } else {
        visits_find(queues, from, to - 1) + visit_finds(queues, to - 1)
    }
}

/// The visit at which a round begun at visit `from` ends, looking from visit `at` on: it
/// is full, or it has been once round the queues.
pub open spec fn round_end(queues: Seq<Seq<int>>, from: int, at: int, bound: nat) -> int
    decreases from + queues.len() - at,
{
    if at - from < queues.len() && visits_find(queues, from, at).len() < bound {
        round_end(queues, from, at + 1, bound)
    } else {
        at
    }
}

/// The rounds from visit `from` on. No queue holds anything for a visit from `last` on.
pub open spec fn rounds_from(
    queues: Seq<Seq<int>>,
    from: int,
    last: int,
    bound: nat,
) -> Seq<Seq<int>>
    decreases (if from < last { last - from } else { 0 }),
{
    let end = round_end(queues, from, from, bound);
    let round = visits_find(queues, from, end);
    if from >= last || end <= from || round.len() == 0 {
        Seq::empty()
    } else {
        seq![round] + rounds_from(queues, end, last, bound)
    }
}

/// The rounds for a batch whose targets are in the repositories `ids`, as positions in the
/// batch.
pub open spec fn merge_rounds(ids: Seq<u64>, bound: nat) -> Seq<Seq<int>> {
    rounds_from(queues(ids), 0, (first_named(ids).len() * ids.len()) as int, bound)
}

/// The executable plan seen as positions.
pub open spec fn as_positions(rounds: Seq<Vec<usize>>) -> Seq<Seq<int>> {
    rounds.map_values(|round: Vec<usize>| places(round@))
}

/// A queue or round of machine integers seen as positions.
pub open spec fn places(round: Seq<usize>) -> Seq<int> {
    round.map_values(|place: usize| place as int)
}

proof fn lemma_positions(ids: Seq<u64>, id: u64)
    ensures
        positions(ids, id).len() <= ids.len(),
        forall|k: int|
            0 <= k < positions(ids, id).len() ==> 0 <= #[trigger] positions(ids, id)[k] < ids.len()
                && ids[positions(ids, id)[k]] == id,
        forall|j: int, k: int|
            0 <= j < k < positions(ids, id).len() ==> positions(ids, id)[j] < positions(ids, id)[k],
        forall|p: int|
            0 <= p < ids.len() && #[trigger] ids[p] == id ==> positions(ids, id).contains(p),
    decreases ids.len(),
{
    if ids.len() > 0 {
        let shorter = ids.drop_last();
        lemma_positions(shorter, id);
        let all = positions(ids, id);
        let earlier = positions(shorter, id);
        assert forall|p: int| 0 <= p < ids.len() && #[trigger] ids[p] == id implies all.contains(
            p,
        ) by {
            if p == ids.len() - 1 {
                assert(all[all.len() - 1] == p);
            } else {
                assert(shorter[p] == id);
                let k = choose|k: int| 0 <= k < earlier.len() && earlier[k] == p;
                assert(all[k] == p);
            }
        }
    }
}

proof fn lemma_first_named(ids: Seq<u64>)
    ensures
        first_named(ids).len() <= ids.len(),
        first_named(ids).no_duplicates(),
        ids.len() > 0 ==> first_named(ids).len() > 0,
        forall|p: int| 0 <= p < ids.len() ==> first_named(ids).contains(#[trigger] ids[p]),
        forall|k: int| 0 <= k < first_named(ids).len() ==> ids.contains(#[trigger] first_named(ids)[k]),
    decreases ids.len(),
{
    if ids.len() > 0 {
        let shorter = ids.drop_last();
        lemma_first_named(shorter);
        let all = first_named(ids);
        let earlier = first_named(shorter);
        assert forall|p: int| 0 <= p < ids.len() implies all.contains(#[trigger] ids[p]) by {
            if p < ids.len() - 1 {
                assert(shorter[p] == ids[p]);
                let k = choose|k: int| 0 <= k < earlier.len() && earlier[k] == ids[p];
                assert(all[k] == ids[p]);
            } else if !earlier.contains(ids.last()) {
                assert(all[all.len() - 1] == ids[p]);
            }
        }
        assert forall|k: int| 0 <= k < all.len() implies ids.contains(#[trigger] all[k]) by {
            if k < earlier.len() {
                assert(shorter.contains(earlier[k]));
                let p = choose|p: int| 0 <= p < shorter.len() && shorter[p] == earlier[k];
                assert(ids[p] == all[k]);
            } else {
                assert(ids[ids.len() - 1] == all[k]);
            }
        }
    }
}

/// Groups the positions of a batch by repository.
fn group(ids: &Vec<u64>) -> (grouped: Vec<Vec<usize>>)
    ensures
        as_positions(grouped@) == queues(ids@),
{
    let mut names: Vec<u64> = Vec::new();
    let mut grouped: Vec<Vec<usize>> = Vec::new();
    let mut place: usize = 0;
    while place < ids.len()
        invariant
            place <= ids.len(),
            names@ == first_named(ids@.take(place as int)),
            grouped.len() == names.len(),
            forall|k: int|
                0 <= k < grouped.len() ==> places(#[trigger] grouped[k]@) == positions(
                    ids@.take(place as int),
                    names[k],
                ),
        decreases ids.len() - place,
    {
        let ghost seen = ids@.take(place as int);
        let ghost next = ids@.take(place + 1);
        assert(next.drop_last() == seen);
        assert(next.last() == ids[place as int]);
        proof {
            lemma_first_named(seen);
        }
        let mut at: usize = 0;
        while at < names.len() && names[at] != ids[place]
            invariant
                at <= names.len(),
                place < ids.len(),
                forall|k: int| 0 <= k < at ==> names[k] != ids[place as int],
            decreases names.len() - at,
        {
            at += 1;
        }
        if at < names.len() {
            let ghost before = grouped@;
            grouped[at].push(place);
            proof {
                assert(names@.contains(ids[place as int]));
                assert(places(grouped[at as int]@) =~= places(before[at as int]@).push(place as int));
                assert forall|k: int| 0 <= k < grouped.len() implies places(
                    #[trigger] grouped[k]@,
                ) == positions(next, names[k]) by {
                    if k != at {
                        assert(grouped[k] == before[k]);
                        assert(names[k] != names[at as int]);
                    }
                }
            }
        } else {
            let mut queue: Vec<usize> = Vec::new();
            queue.push(place);
            let ghost before = grouped@;
            names.push(ids[place]);
            grouped.push(queue);
            proof {
                assert(!first_named(seen).contains(ids[place as int]));
                assert(names@ == first_named(next));
                lemma_absent(seen, ids[place as int]);
                assert(places(queue@) =~= seq![place as int]);
                assert(positions(next, ids[place as int]) =~= seq![place as int]);
                assert forall|k: int| 0 <= k < grouped.len() implies places(
                    #[trigger] grouped[k]@,
                ) == positions(next, names[k]) by {
                    if k < before.len() {
                        assert(grouped[k] == before[k]);
                        assert(names[k] == first_named(seen)[k]);
                        assert(names[k] != ids[place as int]);
                    }
                }
            }
        }
        place += 1;
    }
    assert(ids@.take(place as int) == ids@);
    assert(as_positions(grouped@) =~= queues(ids@));
    grouped
}

proof fn lemma_absent(ids: Seq<u64>, id: u64)
    requires
        !first_named(ids).contains(id),
    ensures
        positions(ids, id).len() == 0,
    decreases ids.len(),
{
    lemma_first_named(ids);
    lemma_positions(ids, id);
    if positions(ids, id).len() > 0 {
        let p = positions(ids, id)[0];
        assert(first_named(ids).contains(ids[p]));
    }
}

/// A visit is the turn and the queue it falls on.
proof fn lemma_visit(n: int, turn: int, at: int)
    requires
        n > 0,
        0 <= at < n,
        turn >= 0,
    ensures
        (turn * n + at) / n == turn,
        (turn * n + at) % n == at,
{
    lemma_fundamental_div_mod_converse(turn * n + at, n, turn, at);
}

/// No queue holds anything for a visit past `queues.len() * longest`.
proof fn lemma_nothing_past(queues: Seq<Seq<int>>, longest: int, visit: int)
    requires
        queues.len() > 0,
        longest >= 0,
        forall|k: int| 0 <= k < queues.len() ==> (#[trigger] queues[k]).len() <= longest,
        visit >= queues.len() * longest,
    ensures
        visit_finds(queues, visit).len() == 0,
{
    let n = queues.len() as int;
    lemma_fundamental_div_mod(visit, n);
    let turn = visit / n;
    assert(0 <= visit % n < n);
    if turn < longest {
        lemma_mul_inequality(turn + 1, longest, n);
        lemma_mul_is_commutative(longest, n);
        lemma_mul_is_commutative(turn, n);
        assert((turn + 1) * n == turn * n + n) by (nonlinear_arith);
    }
    assert(queues[visit % n].len() <= longest);
}

/// A round looked at from a visit it reaches ends where it ends.
proof fn lemma_round_end(queues: Seq<Seq<int>>, from: int, at: int, bound: nat)
    requires
        from <= at <= from + queues.len(),
    ensures
        at <= round_end(queues, from, at, bound) <= from + queues.len(),
        round_end(queues, from, at, bound) == from + queues.len() || visits_find(
            queues,
            from,
            round_end(queues, from, at, bound),
        ).len() >= bound,
    decreases from + queues.len() - at,
{
    if at - from < queues.len() && visits_find(queues, from, at).len() < bound {
        lemma_round_end(queues, from, at + 1, bound);
    }
}

/// The rounds in which a batch's merges go out, as positions in the batch whose targets
/// are in the repositories `ids`. No round holds more than `bound` of them.
pub fn plan_rounds(ids: &Vec<u64>, bound: usize) -> (rounds: Vec<Vec<usize>>)
    requires
        bound > 0,
    ensures
        as_positions(rounds@) == merge_rounds(ids@, bound as nat),
{
    let grouped = group(ids);
    let mut rounds: Vec<Vec<usize>> = Vec::new();
    let n: usize = grouped.len();
    let ghost q = queues(ids@);
    let ghost last: int = (first_named(ids@).len() * ids@.len()) as int;
    proof {
        lemma_first_named(ids@);
        assert(q.len() == n);
        assert forall|k: int| 0 <= k < q.len() implies (#[trigger] q[k]).len() <= ids.len() by {
            lemma_positions(ids@, first_named(ids@)[k]);
        }
    }
    let mut turn: usize = 0;
    let mut at: usize = 0;
    let ghost mut from: int = 0;
    assert(ids.len() == 0 ==> last == 0) by {
        assert(ids.len() == 0 ==> first_named(ids@).len() * ids@.len() == 0) by (nonlinear_arith);
    }
    assert(0 * n == 0) by (nonlinear_arith);
    assert(as_positions(rounds@) + rounds_from(q, from, last, bound as nat) =~= merge_rounds(
        ids@,
        bound as nat,
    ));
    while turn < ids.len()
        invariant_except_break
            as_positions(rounds@) + rounds_from(q, from, last, bound as nat) == merge_rounds(
                ids@,
                bound as nat,
            ),
        invariant
            bound > 0,
            n == grouped.len(),
            q == queues(ids@),
            q == as_positions(grouped@),
            last == n * ids.len(),
            forall|k: int| 0 <= k < q.len() ==> (#[trigger] q[k]).len() <= ids.len(),
            ids.len() > 0 ==> n > 0,
            turn <= ids.len(),
            ids.len() > 0 ==> at < n,
            from == turn * n + at,
            turn == ids.len() ==> from >= last,
        ensures
            as_positions(rounds@) == merge_rounds(ids@, bound as nat),
        decreases last + n - from,
    {
        let mut round: Vec<usize> = Vec::new();
        let mut visited: usize = 0;
        let ghost start = from;
        proof {
            assert(start < last) by (nonlinear_arith)
                requires
                    start == turn * n + at,
                    at < n,
                    turn + 1 <= ids.len(),
                    last == n * ids.len(),
            ;
            assert(places(round@) =~= visits_find(q, start, from));
        }
        while visited < n && round.len() < bound
            invariant
                bound > 0,
                n == grouped.len(),
                n > 0,
                q == as_positions(grouped@),
                last == n * ids.len(),
                start < last,
                visited <= n,
                turn <= ids.len(),
                at < n,
                from == turn * n + at,
                from == start + visited,
                places(round@) == visits_find(q, start, from),
                round_end(q, start, from, bound as nat) == round_end(q, start, start, bound as nat),
            decreases n - visited,
        {
            proof {
                lemma_visit(n as int, turn as int, at as int);
            }
            let queue: &Vec<usize> = &grouped[at];
            assert(q[at as int] == places(grouped[at as int]@));
            let ghost before = round@;
            if turn < queue.len() {
                round.push(queue[turn]);
                assert(places(round@) =~= places(before) + seq![queue[turn as int] as int]);
            } else {
                assert(places(round@) =~= places(before) + Seq::<int>::empty());
            }
            proof {
                assert(places(round@) == places(before) + visit_finds(q, from));
                from = from + 1;
            }
            visited += 1;
            if at + 1 < n {
                at += 1;
            } else {
                proof {
                    assert(turn < ids.len()) by (nonlinear_arith)
                        requires
                            turn * n + (n - 1) < last + n - 1,
                            last == n * ids.len(),
                            n > 0,
                    ;
                    assert((turn + 1) * n == turn * n + n) by (nonlinear_arith);
                }
                at = 0;
                turn += 1;
            }
        }
        proof {
            lemma_round_end(q, start, from, bound as nat);
            assert(turn == ids.len() ==> turn * n == last) by (nonlinear_arith)
                requires
                    last == n * ids.len(),
            ;
        }
        if round.len() == 0 {
            assert(as_positions(rounds@) =~= merge_rounds(ids@, bound as nat));
            break;
        }
        let ghost done = rounds@;
        rounds.push(round);
        proof {
            assert(as_positions(rounds@) =~= as_positions(done).push(places(round@)));
            assert(as_positions(rounds@) + rounds_from(q, from, last, bound as nat)
                =~= as_positions(done) + (seq![places(round@)] + rounds_from(
                q,
                from,
                last,
                bound as nat,
            )));
        }
    }
    rounds
}

/// The visit that found the `k`th of what the visits from `from` up to `to` find.
spec fn visit_of(queues: Seq<Seq<int>>, from: int, to: int, k: int) -> int
    decreases to - from,
{
    if to <= from || k >= visits_find(queues, from, to - 1).len() {
        to - 1
    } else {
        visit_of(queues, from, to - 1, k)
    }
}

proof fn lemma_visit_of(queues: Seq<Seq<int>>, from: int, to: int)
    ensures
        forall|k: int|
            0 <= k < visits_find(queues, from, to).len() ==> {
                &&& from <= #[trigger] visit_of(queues, from, to, k) < to
                &&& visit_finds(queues, visit_of(queues, from, to, k)) == seq![
                    visits_find(queues, from, to)[k],
                ]
            },
        forall|j: int, k: int|
            0 <= j < k < visits_find(queues, from, to).len() ==> visit_of(queues, from, to, j)
                < visit_of(queues, from, to, k),
        visits_find(queues, from, to).len() <= (if from < to { to - from } else { 0 }),
    decreases to - from,
{
    if to > from {
        lemma_visit_of(queues, from, to - 1);
        let earlier = visits_find(queues, from, to - 1);
        let all = visits_find(queues, from, to);
        assert forall|k: int| 0 <= k < all.len() implies {
            &&& from <= #[trigger] visit_of(queues, from, to, k) < to
            &&& visit_finds(queues, visit_of(queues, from, to, k)) == seq![all[k]]
        } by {
            if k < earlier.len() {
                assert(from <= visit_of(queues, from, to - 1, k) < to - 1);
                assert(all[k] == earlier[k]);
            } else {
                assert(visit_finds(queues, to - 1) =~= seq![all[k]]);
            }
        }
        assert forall|j: int, k: int| 0 <= j < k < all.len() implies visit_of(queues, from, to, j)
            < visit_of(queues, from, to, k) by {
            if k < earlier.len() {
                assert(visit_of(queues, from, to - 1, j) < visit_of(queues, from, to - 1, k));
            } else {
                assert(from <= visit_of(queues, from, to - 1, j) < to - 1);
            }
        }
    }
}

/// What a visit finds is among what the visits around it find.
proof fn lemma_found(queues: Seq<Seq<int>>, from: int, to: int, visit: int)
    requires
        from <= visit < to,
        visit_finds(queues, visit).len() > 0,
    ensures
        visits_find(queues, from, to).contains(visit_finds(queues, visit)[0]),
    decreases to - from,
{
    let all = visits_find(queues, from, to);
    let earlier = visits_find(queues, from, to - 1);
    if visit == to - 1 {
        assert(all[earlier.len() as int] == visit_finds(queues, visit)[0]);
    } else {
        lemma_found(queues, from, to - 1, visit);
        let k = choose|k: int| 0 <= k < earlier.len() && earlier[k] == visit_finds(queues, visit)[0];
        assert(all[k] == earlier[k]);
    }
}

proof fn lemma_visits_split(queues: Seq<Seq<int>>, from: int, mid: int, to: int)
    requires
        from <= mid <= to,
    ensures
        visits_find(queues, from, to) == visits_find(queues, from, mid) + visits_find(
            queues,
            mid,
            to,
        ),
    decreases to - mid,
{
    if mid < to {
        lemma_visits_split(queues, from, mid, to - 1);
    }
    assert(visits_find(queues, from, to) =~= visits_find(queues, from, mid) + visits_find(
        queues,
        mid,
        to,
    ));
}

proof fn lemma_visits_find_nothing(queues: Seq<Seq<int>>, from: int, to: int)
    requires
        forall|v: int| from <= v < to ==> (#[trigger] visit_finds(queues, v)).len() == 0,
    ensures
        visits_find(queues, from, to) == Seq::<int>::empty(),
    decreases to - from,
{
    if from < to {
        lemma_visits_find_nothing(queues, from, to - 1);
        assert(visit_finds(queues, to - 1).len() == 0);
        assert(visits_find(queues, from, to) =~= Seq::<int>::empty());
    }
}

/// Once a whole circle of visits has found nothing, no later visit finds anything.
proof fn lemma_drained(queues: Seq<Seq<int>>, from: int, visit: int)
    requires
        queues.len() > 0,
        0 <= from <= visit,
        visits_find(queues, from, from + queues.len()).len() == 0,
    ensures
        visit_finds(queues, visit).len() == 0,
    decreases visit,
{
    let n = queues.len() as int;
    if visit < from + n {
        if visit_finds(queues, visit).len() > 0 {
            lemma_found(queues, from, from + n, visit);
        }
    } else {
        lemma_drained(queues, from, visit - n);
        lemma_fundamental_div_mod(visit - n, n);
        let turn = (visit - n) / n;
        let at = (visit - n) % n;
        assert(visit == (turn + 1) * n + at) by (nonlinear_arith)
            requires
                visit - n == n * turn + at,
        ;
        assert(turn >= 0) by (nonlinear_arith)
            requires
                visit - n >= 0,
                visit - n == n * turn + at,
                at < n,
                n > 0,
        ;
        lemma_visit(n, turn + 1, at);
    }
}

/// All rounds together are what the visits find.
proof fn lemma_rounds_flatten(queues: Seq<Seq<int>>, from: int, longest: int, bound: nat)
    requires
        queues.len() > 0,
        bound > 0,
        longest >= 0,
        from >= 0,
        forall|k: int| 0 <= k < queues.len() ==> (#[trigger] queues[k]).len() <= longest,
    ensures
        rounds_from(queues, from, queues.len() * longest, bound).flatten() == visits_find(
            queues,
            from,
            queues.len() * longest,
        ),
    decreases (if from < queues.len() * longest { queues.len() * longest - from } else { 0 }),
{
    let last = queues.len() * longest;
    let n = queues.len() as int;
    let rounds = rounds_from(queues, from, last, bound);
    let end = round_end(queues, from, from, bound);
    let round = visits_find(queues, from, end);
    lemma_round_end(queues, from, from, bound);
    assert forall|v: int| v >= last implies (#[trigger] visit_finds(queues, v)).len() == 0 by {
        lemma_nothing_past(queues, longest, v);
    }
    assert(visits_find(queues, from, from) =~= Seq::<int>::empty());
    if from < last {
        assert(end > from);
        if round.len() == 0 {
            assert(end == from + n);
            assert forall|v: int| from <= v < last implies (#[trigger] visit_finds(
                queues,
                v,
            )).len() == 0 by {
                lemma_drained(queues, from, v);
            }
            lemma_visits_find_nothing(queues, from, last);
        } else {
            let rest = rounds_from(queues, end, last, bound);
            lemma_rounds_flatten(queues, end, longest, bound);
            assert(rounds.first() == round);
            assert(rounds.drop_first() =~= rest);
            assert(rounds.flatten() == round + rest.flatten());
            if end <= last {
                lemma_visits_split(queues, from, end, last);
            } else {
                lemma_visits_split(queues, from, last, end);
                lemma_visits_find_nothing(queues, last, end);
                assert(visits_find(queues, from, end) =~= visits_find(queues, from, last));
            }
        }
    }
    assert(rounds.flatten() =~= visits_find(queues, from, last));
}

/// The turn a target has within its repository: how many earlier targets of the batch are
/// in the same one.
pub open spec fn turn_of(ids: Seq<u64>, place: int) -> nat {
    positions(ids.take(place), ids[place]).len()
}

proof fn lemma_turn_of(ids: Seq<u64>, id: u64, turn: int)
    requires
        0 <= turn < positions(ids, id).len(),
    ensures
        turn_of(ids, positions(ids, id)[turn]) == turn,
    decreases ids.len(),
{
    let shorter = ids.drop_last();
    let place = positions(ids, id)[turn];
    lemma_positions(ids, id);
    lemma_positions(shorter, id);
    if turn < positions(shorter, id).len() {
        lemma_turn_of(shorter, id, turn);
        assert(shorter.take(place) =~= ids.take(place));
        assert(shorter[place] == ids[place]);
    } else {
        assert(ids.take(place) =~= shorter);
    }
}

/// What the whole plan holds, visit by visit.
proof fn lemma_plan(ids: Seq<u64>, bound: nat)
    requires
        ids.len() > 0,
        bound > 0,
    ensures
        first_named(ids).len() > 0,
        merge_rounds(ids, bound).flatten() == visits_find(
            queues(ids),
            0,
            (first_named(ids).len() * ids.len()) as int,
        ),
        forall|k: int|
            0 <= k < first_named(ids).len() ==> (#[trigger] queues(ids)[k]).len() <= ids.len(),
{
    lemma_first_named(ids);
    let q = queues(ids);
    assert forall|k: int| 0 <= k < q.len() implies (#[trigger] q[k]).len() <= ids.len() by {
        lemma_positions(ids, first_named(ids)[k]);
    }
    assert(q.len() == first_named(ids).len());
    lemma_rounds_flatten(q, 0, ids.len() as int, bound);
}

/// What a visit that finds something says of the target it finds.
proof fn lemma_visit_target(ids: Seq<u64>, visit: int)
    requires
        ids.len() > 0,
        visit >= 0,
        visit_finds(queues(ids), visit).len() > 0,
    ensures
        ({
            let n = first_named(ids).len() as int;
            let place = visit_finds(queues(ids), visit)[0];
            &&& n > 0
            &&& 0 <= visit % n < n
            &&& visit / n >= 0
            &&& visit == n * (visit / n) + visit % n
            &&& 0 <= place < ids.len()
            &&& ids[place] == first_named(ids)[visit % n]
            &&& turn_of(ids, place) == visit / n
            &&& place == positions(ids, ids[place])[visit / n]
            &&& visit / n < positions(ids, ids[place]).len()
        }),
{
    lemma_first_named(ids);
    let n = first_named(ids).len() as int;
    lemma_fundamental_div_mod(visit, n);
    let at = visit % n;
    let turn = visit / n;
    assert(turn >= 0) by (nonlinear_arith)
        requires
            visit >= 0,
            visit == n * turn + at,
            at < n,
            n > 0,
    ;
    let id = first_named(ids)[at];
    assert(queues(ids)[at] == positions(ids, id));
    lemma_positions(ids, id);
    lemma_turn_of(ids, id, turn);
}

/// Every target of the batch lands in exactly one round, and nothing else does.
pub proof fn law_every_target_lands_in_exactly_one_round(ids: Seq<u64>, bound: nat)
    requires
        bound > 0,
    ensures
        merge_rounds(ids, bound).flatten().no_duplicates(),
        forall|place: int|
            merge_rounds(ids, bound).flatten().contains(place) <==> 0 <= place < ids.len(),
{
    let flat = merge_rounds(ids, bound).flatten();
    if ids.len() == 0 {
        assert((first_named(ids).len() * ids.len()) == 0) by (nonlinear_arith)
            requires
                ids.len() == 0,
        ;
        assert(merge_rounds(ids, bound) =~= Seq::<Seq<int>>::empty());
    } else {
        lemma_plan(ids, bound);
        lemma_first_named(ids);
        let q = queues(ids);
        let n = first_named(ids).len() as int;
        let last = (first_named(ids).len() * ids.len()) as int;
        lemma_visit_of(q, 0, last);
        assert forall|j: int, k: int| 0 <= j < flat.len() && 0 <= k < flat.len() && j != k implies flat[j]
            != flat[k] by {
            let v = visit_of(q, 0, last, j);
            let w = visit_of(q, 0, last, k);
            assert(visit_finds(q, v) == seq![flat[j]]);
            assert(visit_finds(q, w) == seq![flat[k]]);
            lemma_visit_target(ids, v);
            lemma_visit_target(ids, w);
            assert(v != w);
            if flat[j] == flat[k] {
                assert(v % n == w % n);
                assert(v / n == w / n);
            }
        }
        assert forall|place: int| flat.contains(place) <==> 0 <= place < ids.len() by {
            if flat.contains(place) {
                let k = choose|k: int| 0 <= k < flat.len() && flat[k] == place;
                assert(visit_finds(q, visit_of(q, 0, last, k)) == seq![flat[k]]);
                lemma_visit_target(ids, visit_of(q, 0, last, k));
            }
            if 0 <= place < ids.len() {
                let id = ids[place];
                lemma_positions(ids, id);
                assert(first_named(ids).contains(ids[place]));
                let at = choose|at: int| 0 <= at < n && first_named(ids)[at] == id;
                let turn = choose|turn: int|
                    0 <= turn < positions(ids, id).len() && positions(ids, id)[turn] == place;
                let visit = turn * n + at;
                lemma_visit(n, turn, at);
                assert(0 <= visit < last) by (nonlinear_arith)
                    requires
                        visit == turn * n + at,
                        0 <= at < n,
                        0 <= turn,
                        turn + 1 <= ids.len(),
                        last == n * ids.len(),
                ;
                assert(visit_finds(q, visit) == seq![place]);
                lemma_found(q, 0, last, visit);
            }
        }
    }
}

/// The targets of one repository go out in batch order.
pub proof fn law_a_repository_keeps_its_batch_order(ids: Seq<u64>, bound: nat, j: int, k: int)
    requires
        bound > 0,
        0 <= j < k < merge_rounds(ids, bound).flatten().len(),
        ids[merge_rounds(ids, bound).flatten()[j]] == ids[merge_rounds(ids, bound).flatten()[k]],
    ensures
        merge_rounds(ids, bound).flatten()[j] < merge_rounds(ids, bound).flatten()[k],
{
    let flat = merge_rounds(ids, bound).flatten();
    law_every_target_lands_in_exactly_one_round(ids, bound);
    assert(flat.contains(flat[j]));
    lemma_plan(ids, bound);
    lemma_first_named(ids);
    let q = queues(ids);
    let n = first_named(ids).len() as int;
    let last = (first_named(ids).len() * ids.len()) as int;
    lemma_visit_of(q, 0, last);
    let v = visit_of(q, 0, last, j);
    let w = visit_of(q, 0, last, k);
    assert(visit_finds(q, v) == seq![flat[j]]);
    assert(visit_finds(q, w) == seq![flat[k]]);
    lemma_visit_target(ids, v);
    lemma_visit_target(ids, w);
    assert(v % n == w % n);
    assert(v / n < w / n) by (nonlinear_arith)
        requires
            v < w,
            v == n * (v / n) + v % n,
            w == n * (w / n) + w % n,
            v % n == w % n,
            n > 0,
    ;
    lemma_positions(ids, ids[flat[j]]);
}

/// Repositories take turns: none has its next target sent while another still waits for an
/// earlier turn, so no repository waits on another's being drained.
pub proof fn law_no_repository_waits_for_another_to_drain(ids: Seq<u64>, bound: nat, j: int, k: int)
    requires
        bound > 0,
        0 <= j < k < merge_rounds(ids, bound).flatten().len(),
    ensures
        turn_of(ids, merge_rounds(ids, bound).flatten()[j]) <= turn_of(
            ids,
            merge_rounds(ids, bound).flatten()[k],
        ),
{
    let flat = merge_rounds(ids, bound).flatten();
    law_every_target_lands_in_exactly_one_round(ids, bound);
    assert(flat.contains(flat[j]));
    lemma_plan(ids, bound);
    let q = queues(ids);
    let n = first_named(ids).len() as int;
    let last = (first_named(ids).len() * ids.len()) as int;
    lemma_visit_of(q, 0, last);
    let v = visit_of(q, 0, last, j);
    let w = visit_of(q, 0, last, k);
    assert(visit_finds(q, v) == seq![flat[j]]);
    assert(visit_finds(q, w) == seq![flat[k]]);
    lemma_visit_target(ids, v);
    lemma_visit_target(ids, w);
    assert(v / n <= w / n) by (nonlinear_arith)
        requires
            v < w,
            v == n * (v / n) + v % n,
            w == n * (w / n) + w % n,
            0 <= v % n < n,
            0 <= w % n < n,
            n > 0,
    ;
}

/// The visits of one round find at most `bound` targets.
proof fn lemma_round_bound(queues: Seq<Seq<int>>, from: int, at: int, bound: nat)
    requires
        from <= at <= from + queues.len(),
        visits_find(queues, from, at).len() <= bound,
    ensures
        visits_find(queues, from, round_end(queues, from, at, bound)).len() <= bound,
    decreases from + queues.len() - at,
{
    if at - from < queues.len() && visits_find(queues, from, at).len() < bound {
        assert(visits_find(queues, from, at + 1) == visits_find(queues, from, at) + visit_finds(
            queues,
            at,
        ));
        lemma_round_bound(queues, from, at + 1, bound);
    }
}

/// Every round is what some of the visits found, at most once round the queues.
proof fn lemma_round_is_visits(
    queues: Seq<Seq<int>>,
    from: int,
    last: int,
    bound: nat,
    r: int,
) -> (span: (int, int))
    requires
        queues.len() > 0,
        bound > 0,
        from >= 0,
        0 <= r < rounds_from(queues, from, last, bound).len(),
    ensures
        from <= span.0 <= span.1 <= span.0 + queues.len(),
        rounds_from(queues, from, last, bound)[r] == visits_find(queues, span.0, span.1),
        0 < rounds_from(queues, from, last, bound)[r].len() <= bound,
        rounds_from(queues, from, last, bound)[r].len() < bound ==> span.1 == span.0
            + queues.len(),
    decreases r,
{
    let end = round_end(queues, from, from, bound);
    lemma_round_end(queues, from, from, bound);
    lemma_round_bound(queues, from, from, bound);
    if r == 0 {
        (from, end)
    } else {
        assert(rounds_from(queues, from, last, bound)[r] == rounds_from(queues, end, last, bound)[r
            - 1]);
        lemma_round_is_visits(queues, end, last, bound, r - 1)
    }
}

/// A round holds at least one target and at most `bound` of them.
pub proof fn law_rounds_are_bounded_and_never_empty(ids: Seq<u64>, bound: nat, r: int)
    requires
        bound > 0,
        0 <= r < merge_rounds(ids, bound).len(),
    ensures
        1 <= merge_rounds(ids, bound)[r].len() <= bound,
{
    if ids.len() == 0 {
        assert((first_named(ids).len() * ids.len()) == 0) by (nonlinear_arith)
            requires
                ids.len() == 0,
        ;
    }
    lemma_first_named(ids);
    let span = lemma_round_is_visits(
        queues(ids),
        0,
        (first_named(ids).len() * ids.len()) as int,
        bound,
        r,
    );
}

/// No round holds two targets of one repository.
pub proof fn law_a_round_holds_one_target_of_a_repository(
    ids: Seq<u64>,
    bound: nat,
    r: int,
    j: int,
    k: int,
)
    requires
        bound > 0,
        0 <= r < merge_rounds(ids, bound).len(),
        0 <= j < k < merge_rounds(ids, bound)[r].len(),
    ensures
        ids[merge_rounds(ids, bound)[r][j]] != ids[merge_rounds(ids, bound)[r][k]],
{
    if ids.len() == 0 {
        assert((first_named(ids).len() * ids.len()) == 0) by (nonlinear_arith)
            requires
                ids.len() == 0,
        ;
    }
    lemma_first_named(ids);
    let q = queues(ids);
    let n = first_named(ids).len() as int;
    let last = (first_named(ids).len() * ids.len()) as int;
    let round = merge_rounds(ids, bound)[r];
    let span = lemma_round_is_visits(q, 0, last, bound, r);
    lemma_visit_of(q, span.0, span.1);
    let v = visit_of(q, span.0, span.1, j);
    let w = visit_of(q, span.0, span.1, k);
    assert(visit_finds(q, v) == seq![round[j]]);
    assert(visit_finds(q, w) == seq![round[k]]);
    lemma_visit_target(ids, v);
    lemma_visit_target(ids, w);
    if v % n == w % n {
        assert(false) by (nonlinear_arith)
            requires
                v < w,
                w - v < n,
                v == n * (v / n) + v % n,
                w == n * (w / n) + w % n,
                v % n == w % n,
                n > 0,
        ;
    }
}

/// Of two rounds, the visits of the later one come after those of the earlier.
proof fn lemma_rounds_in_turn(
    queues: Seq<Seq<int>>,
    from: int,
    last: int,
    bound: nat,
    r: int,
    s: int,
) -> (spans: ((int, int), (int, int)))
    requires
        queues.len() > 0,
        bound > 0,
        from >= 0,
        0 <= r < s < rounds_from(queues, from, last, bound).len(),
    ensures
        from <= spans.0.0 <= spans.0.1 <= spans.1.0 <= spans.1.1,
        rounds_from(queues, from, last, bound)[r] == visits_find(queues, spans.0.0, spans.0.1),
        rounds_from(queues, from, last, bound)[s] == visits_find(queues, spans.1.0, spans.1.1),
        rounds_from(queues, from, last, bound)[r].len() < bound ==> spans.0.1 == spans.0.0
            + queues.len(),
    decreases r,
{
    let rounds = rounds_from(queues, from, last, bound);
    let end = round_end(queues, from, from, bound);
    let rest = rounds_from(queues, end, last, bound);
    lemma_round_end(queues, from, from, bound);
    assert(rounds[s] == rest[s - 1]);
    if r == 0 {
        let later = lemma_round_is_visits(queues, end, last, bound, s - 1);
        ((from, end), later)
    } else {
        assert(rounds[r] == rest[r - 1]);
        lemma_rounds_in_turn(queues, end, last, bound, r - 1, s - 1)
    }
}

/// The order targets go out in does not depend on the bound, which only says where a round
/// ends.
pub proof fn law_the_bound_does_not_change_the_order(ids: Seq<u64>, bound: nat, other: nat)
    requires
        bound > 0,
        other > 0,
    ensures
        merge_rounds(ids, bound).flatten() == merge_rounds(ids, other).flatten(),
{
    if ids.len() == 0 {
        assert((first_named(ids).len() * ids.len()) == 0) by (nonlinear_arith)
            requires
                ids.len() == 0,
        ;
        assert(merge_rounds(ids, bound) =~= merge_rounds(ids, other));
    } else {
        lemma_plan(ids, bound);
        lemma_plan(ids, other);
    }
}

/// Within a turn, repositories go out in the order the batch first names them.
pub proof fn law_a_turn_goes_by_the_order_of_first_naming(
    ids: Seq<u64>,
    bound: nat,
    j: int,
    k: int,
    left: int,
    right: int,
)
    requires
        bound > 0,
        0 <= j < k < merge_rounds(ids, bound).flatten().len(),
        turn_of(ids, merge_rounds(ids, bound).flatten()[j]) == turn_of(
            ids,
            merge_rounds(ids, bound).flatten()[k],
        ),
        0 <= left < first_named(ids).len(),
        0 <= right < first_named(ids).len(),
        first_named(ids)[left] == ids[merge_rounds(ids, bound).flatten()[j]],
        first_named(ids)[right] == ids[merge_rounds(ids, bound).flatten()[k]],
    ensures
        left < right,
{
    let flat = merge_rounds(ids, bound).flatten();
    law_every_target_lands_in_exactly_one_round(ids, bound);
    assert(flat.contains(flat[j]));
    lemma_plan(ids, bound);
    lemma_first_named(ids);
    let q = queues(ids);
    let n = first_named(ids).len() as int;
    let last = (first_named(ids).len() * ids.len()) as int;
    lemma_visit_of(q, 0, last);
    let v = visit_of(q, 0, last, j);
    let w = visit_of(q, 0, last, k);
    assert(visit_finds(q, v) == seq![flat[j]]);
    assert(visit_finds(q, w) == seq![flat[k]]);
    lemma_visit_target(ids, v);
    lemma_visit_target(ids, w);
    assert(v / n == w / n);
    assert(v % n < w % n);
    assert(left == v % n);
    assert(right == w % n);
}

/// A round is as full as it can be: one that could hold more holds a target of every
/// repository that still has one to send after it.
pub proof fn law_a_round_is_as_full_as_it_can_be(
    ids: Seq<u64>,
    bound: nat,
    r: int,
    s: int,
    k: int,
)
    requires
        bound > 0,
        0 <= r < s < merge_rounds(ids, bound).len(),
        merge_rounds(ids, bound)[r].len() < bound,
        0 <= k < merge_rounds(ids, bound)[s].len(),
    ensures
        exists|j: int|
            0 <= j < merge_rounds(ids, bound)[r].len() && ids[#[trigger] merge_rounds(
                ids,
                bound,
            )[r][j]] == ids[merge_rounds(ids, bound)[s][k]],
{
    if ids.len() == 0 {
        assert((first_named(ids).len() * ids.len()) == 0) by (nonlinear_arith)
            requires
                ids.len() == 0,
        ;
    }
    lemma_first_named(ids);
    let q = queues(ids);
    let n = first_named(ids).len() as int;
    let last = (first_named(ids).len() * ids.len()) as int;
    let round = merge_rounds(ids, bound)[r];
    let later = merge_rounds(ids, bound)[s];
    let (span, after) = lemma_rounds_in_turn(q, 0, last, bound, r, s);
    lemma_visit_of(q, after.0, after.1);
    let w = visit_of(q, after.0, after.1, k);
    assert(visit_finds(q, w) == seq![later[k]]);
    lemma_visit_target(ids, w);
    let at = w % n;
    // The visit of the same queue among the `n` of the round.
    let v = span.0 + (w - span.0) % n;
    lemma_fundamental_div_mod(w - span.0, n);
    let times = (w - span.0) / n;
    assert(v + n * times == w);
    assert(times >= 1) by (nonlinear_arith)
        requires
            w - span.0 >= n,
            w - span.0 == n * times + (w - span.0) % n,
            (w - span.0) % n < n,
            n > 0,
    ;
    let turn = w / n - times;
    assert(v == turn * n + at) by (nonlinear_arith)
        requires
            v + n * times == w,
            w == n * (w / n) + at,
            turn == w / n - times,
    ;
    assert(turn >= 0) by (nonlinear_arith)
        requires
            v >= 0,
            v == turn * n + at,
            at < n,
            n > 0,
    ;
    lemma_visit(n, turn, at);
    assert(q[at] == positions(ids, first_named(ids)[at]));
    assert(turn < q[at].len());
    assert(visit_finds(q, v).len() > 0);
    lemma_found(q, span.0, span.1, v);
    lemma_visit_target(ids, v);
    let j = choose|j: int| 0 <= j < round.len() && round[j] == visit_finds(q, v)[0];
    assert(ids[merge_rounds(ids, bound)[r][j]] == ids[later[k]]);
}

/// Of two repositories the one named earlier is named before the other is at all.
proof fn lemma_first_named_order(ids: Seq<u64>, left: int, right: int) -> (p: int)
    requires
        0 <= left < right < first_named(ids).len(),
    ensures
        0 <= p < ids.len(),
        ids[p] == first_named(ids)[left],
        forall|q: int| 0 <= q <= p ==> #[trigger] ids[q] != first_named(ids)[right],
    decreases ids.len(),
{
    let shorter = ids.drop_last();
    let earlier = first_named(shorter);
    lemma_first_named(shorter);
    if right < earlier.len() {
        let p = lemma_first_named_order(shorter, left, right);
        assert forall|q: int| 0 <= q <= p implies #[trigger] ids[q] != first_named(ids)[right] by {
            assert(shorter[q] == ids[q]);
        }
        p
    } else {
        assert(shorter.contains(earlier[left]));
        let p = choose|p: int| 0 <= p < shorter.len() && shorter[p] == earlier[left];
        assert forall|q: int| 0 <= q <= p implies #[trigger] ids[q] != first_named(ids)[right] by {
            assert(earlier.contains(shorter[q]));
        }
        p
    }
}

/// A repository has as many positions as the batch names it times.
proof fn lemma_positions_count(ids: Seq<u64>, id: u64, names: spec_fn(u64) -> bool)
    requires
        forall|other: u64| #[trigger] names(other) <==> other == id,
    ensures
        positions(ids, id).len() == ids.filter(names).len(),
    decreases ids.len(),
{
    reveal(Seq::filter);
    if ids.len() > 0 {
        lemma_positions_count(ids.drop_last(), id, names);
    }
}

/// Targets go out turn by turn, a target's turn being how many of its repository the batch
/// names before it; and within a turn, a repository that the batch names first goes first.
pub proof fn law_targets_go_out_turn_by_turn(ids: Seq<u64>, bound: nat, j: int, k: int)
    requires
        bound > 0,
        0 <= j < k < merge_rounds(ids, bound).flatten().len(),
    ensures
        ({
            let left = merge_rounds(ids, bound).flatten()[j];
            let right = merge_rounds(ids, bound).flatten()[k];
            let left_turn = ids.take(left).filter(|id: u64| id == ids[left]).len();
            let right_turn = ids.take(right).filter(|id: u64| id == ids[right]).len();
            &&& left_turn <= right_turn
            &&& left_turn == right_turn ==> exists|p: int|
                0 <= p < ids.len() && #[trigger] ids[p] == ids[left] && forall|q: int|
                    0 <= q <= p ==> #[trigger] ids[q] != ids[right]
        }),
{
    let flat = merge_rounds(ids, bound).flatten();
    let left = flat[j];
    let right = flat[k];
    lemma_positions_count(ids.take(left), ids[left], |id: u64| id == ids[left]);
    lemma_positions_count(ids.take(right), ids[right], |id: u64| id == ids[right]);
    law_no_repository_waits_for_another_to_drain(ids, bound, j, k);
    if turn_of(ids, left) == turn_of(ids, right) {
        law_every_target_lands_in_exactly_one_round(ids, bound);
        lemma_first_named(ids);
        assert(flat.contains(left) && flat.contains(right));
        assert(first_named(ids).contains(ids[left]));
        assert(first_named(ids).contains(ids[right]));
        let a = choose|a: int| 0 <= a < first_named(ids).len() && first_named(ids)[a] == ids[left];
        let b = choose|b: int| 0 <= b < first_named(ids).len() && first_named(ids)[b] == ids[right];
        law_a_turn_goes_by_the_order_of_first_naming(ids, bound, j, k, a, b);
        let p = lemma_first_named_order(ids, a, b);
        assert(ids[p] == ids[left]);
    }
}

} // verus!
