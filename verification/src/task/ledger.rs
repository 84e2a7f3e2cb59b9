//! The ledger of runs: one entry per task, queued or finished, ordered by id.

use vstd::prelude::*;
use std::collections::VecDeque;
use super::Task;

verus! {

/// Ledger entry of a task: id, name, runs.
pub open spec fn entry_of(t: Task) -> (usize, String, u64) {
    (t.id, t.name, t.runs)
}

/// Entries of the queued tasks in queue order, then those of the finished ones
/// in the order in which they finished.
pub open spec fn all_entries(
    ready: Seq<Box<Task>>,
    finished: Seq<(usize, String, u64)>,
) -> Seq<(usize, String, u64)> {
    Seq::new(ready.len(), |i: int| entry_of(*ready[i])) + finished
}

/// Ids never decrease along the entries.
pub open spec fn ordered(s: Seq<(usize, String, u64)>) -> bool {
    forall|i: int, j: int| 0 <= i <= j < s.len() ==> #[trigger] s[i].0 <= #[trigger] s[j].0
}

/// The entries of one id, in order.
pub open spec fn entries_of(s: Seq<(usize, String, u64)>, id: usize) -> Seq<(usize, String, u64)>
    decreases s.len(),
{
    if s.len() == 0 {
        Seq::empty()
    } else if s.last().0 == id {
        entries_of(s.drop_last(), id).push(s.last())
    } else {
        entries_of(s.drop_last(), id)
    }
}

/// `out` is `all` sorted by id, entries of one id staying in their order.
pub open spec fn sorted_from(
    out: Seq<(usize, String, u64)>,
    all: Seq<(usize, String, u64)>,
) -> bool {
    &&& out.len() == all.len()
    &&& ordered(out)
    &&& forall|id: usize| #[trigger] entries_of(out, id) == entries_of(all, id)
}

proof fn lemma_entries_concat(
    a: Seq<(usize, String, u64)>,
    b: Seq<(usize, String, u64)>,
    id: usize,
)
    ensures
        entries_of(a + b, id) == entries_of(a, id) + entries_of(b, id),
    decreases b.len(),
{
    if b.len() == 0 {
        assert(a + b =~= a);
        assert(entries_of(a, id) + entries_of(b, id) =~= entries_of(a, id));
    } else {
        lemma_entries_concat(a, b.drop_last(), id);
        assert((a + b).drop_last() =~= a + b.drop_last());
        assert(entries_of(a + b, id) =~= entries_of(a, id) + entries_of(b, id));
    }
}

proof fn lemma_entries_none(s: Seq<(usize, String, u64)>, id: usize)
    requires
        forall|i: int| 0 <= i < s.len() ==> #[trigger] s[i].0 != id,
    ensures
        entries_of(s, id) == Seq::<(usize, String, u64)>::empty(),
    decreases s.len(),
{
    if s.len() > 0 {
        assert forall|i: int| 0 <= i < s.drop_last().len() implies #[trigger] s.drop_last()[i].0
            != id by {
            assert(s.drop_last()[i] == s[i]);
        }
        lemma_entries_none(s.drop_last(), id);
    }
}

proof fn lemma_insert_keeps_entries(
    s: Seq<(usize, String, u64)>,
    at: int,
    e: (usize, String, u64),
    id: usize,
)
    requires
        0 <= at <= s.len(),
        forall|i: int| at <= i < s.len() ==> #[trigger] s[i].0 != e.0,
    ensures
        entries_of(s.insert(at, e), id) == entries_of(s.push(e), id),
{
    let head = s.take(at);
    let tail = s.skip(at);
    let one = seq![e];
    assert(s.insert(at, e) =~= head + one + tail);
    assert(s.push(e) =~= head + tail + one);
    lemma_entries_concat(head, one, id);
    lemma_entries_concat(head + one, tail, id);
    lemma_entries_concat(head, tail, id);
    lemma_entries_concat(head + tail, one, id);
    if id == e.0 {
        lemma_entries_none(tail, id);
        assert(entries_of(head, id) + entries_of(one, id) + entries_of(tail, id) =~= entries_of(
            head,
            id,
        ) + entries_of(tail, id) + entries_of(one, id));
    } else {
        lemma_entries_none(one, id);
        assert(entries_of(head, id) + entries_of(one, id) + entries_of(tail, id) =~= entries_of(
            head,
            id,
        ) + entries_of(tail, id) + entries_of(one, id));
    }
}

/// Insert an entry behind every entry whose id is not larger.
fn insert_entry(out: &mut Vec<(usize, String, u64)>, e: (usize, String, u64))
    requires
        ordered(old(out)@),
    ensures
        sorted_from(final(out)@, old(out)@.push(e)),
{
    let mut at: usize = out.len();
    while at > 0 && out[at - 1].0 > e.0
        invariant
            at <= out@.len(),
            out@ == old(out)@,
            ordered(out@),
            forall|i: int| at <= i < out@.len() ==> #[trigger] out@[i].0 > e.0,
        decreases at,
    {
        at = at - 1;
    }
    let ghost before = out@;
    out.insert(at, e);
    proof {
        assert forall|i: int, j: int| 0 <= i <= j < out@.len() implies #[trigger] out@[i].0
            <= #[trigger] out@[j].0 by {
            let a = if i < at {
                i
            } else {
                i - 1
            };
            let b = if j < at {
                j
            } else {
                j - 1
            };
            if i != at {
                assert(out@[i] == before[a]);
            }
            if j != at {
                assert(out@[j] == before[b]);
            }
            if i < at && at > 0 {
                assert(before[i].0 <= before[at - 1].0);
            }
        }
        assert forall|id: usize| #[trigger] entries_of(out@, id) == entries_of(
            before.push(e),
            id,
        ) by {
            lemma_insert_keeps_entries(before, at as int, e, id);
        }
    }
}

proof fn lemma_sorted_from_push(
    out: Seq<(usize, String, u64)>,
    all: Seq<(usize, String, u64)>,
    e: (usize, String, u64),
    next: Seq<(usize, String, u64)>,
)
    requires
        sorted_from(out, all),
        sorted_from(next, out.push(e)),
    ensures
        sorted_from(next, all.push(e)),
{
    assert forall|id: usize| #[trigger] entries_of(next, id) == entries_of(all.push(e), id) by {
        assert(entries_of(next, id) == entries_of(out.push(e), id));
        assert(out.push(e).drop_last() =~= out);
        assert(all.push(e).drop_last() =~= all);
        assert(entries_of(out, id) == entries_of(all, id));
    }
}

/// Snapshot of the ledger, ordered by id; entries of one id keep their order,
/// queued before finished.
pub fn snapshot(
    ready: &VecDeque<Box<Task>>,
    finished: &Vec<(usize, String, u64)>,
) -> (out: Vec<(usize, String, u64)>)
    ensures
        sorted_from(out@, all_entries(ready@, finished@)),
{
    let ghost all = all_entries(ready@, finished@);
    let mut out: Vec<(usize, String, u64)> = Vec::new();
    let mut i: usize = 0;
    while i < ready.len()
        invariant
            i <= ready@.len(),
            all == all_entries(ready@, finished@),
            sorted_from(out@, all.take(i as int)),
        decreases ready@.len() - i,
    {
        let task = &ready[i];
        let e = (task.id, task.name.clone(), task.runs);
        let ghost before = out@;
        insert_entry(&mut out, e);
        proof {
            assert(all[i as int] == e);
            lemma_sorted_from_push(before, all.take(i as int), e, out@);
            assert(all.take(i as int).push(e) =~= all.take(i + 1));
        }
        i = i + 1;
    }
    let mut k: usize = 0;
    while k < finished.len()
        invariant
            k <= finished@.len(),
            all == all_entries(ready@, finished@),
            sorted_from(out@, all.take(ready@.len() + k)),
        decreases finished@.len() - k,
    {
        let e = (finished[k].0, finished[k].1.clone(), finished[k].2);
        let ghost before = out@;
        insert_entry(&mut out, e);
        proof {
            assert(all[ready@.len() + k] == e);
            lemma_sorted_from_push(before, all.take(ready@.len() + k), e, out@);
            assert(all.take(ready@.len() + k).push(e) =~= all.take(ready@.len() + k + 1));
        }
        k = k + 1;
    }
    assert(all.take(all.len() as int) =~= all);
    out
}

proof fn lemma_count_by_id(s: Seq<(usize, String, u64)>, e: (usize, String, u64))
    ensures
        s.to_multiset().count(e) == entries_of(s, e.0).to_multiset().count(e),
    decreases s.len(),
{
    broadcast use vstd::seq_lib::group_to_multiset_ensures;

    if s.len() > 0 {
        lemma_count_by_id(s.drop_last(), e);
        assert(s =~= s.drop_last().push(s.last()));
        s.drop_last().to_multiset_ensures();
        entries_of(s.drop_last(), e.0).to_multiset_ensures();
    }
}

/// Law: the ledger shows everybody, once, and nobody else: the id, the name and the
/// runs of every task that is queued and of every task that finished, the ids in
/// rising order.
pub proof fn law_ledger_is_complete(
    ready: VecDeque<Box<Task>>,
    finished: Vec<(usize, String, u64)>,
    out: Vec<(usize, String, u64)>,
)
    requires
        call_ensures(snapshot, (&ready, &finished), out),
    ensures
        out@.len() == ready@.len() + finished@.len(),
        forall|i: int, j: int| 0 <= i < j < out@.len() ==> out@[i].0 <= out@[j].0,
        out@.to_multiset() == (Seq::new(
            ready@.len(),
            |i: int| (ready@[i].id, ready@[i].name, ready@[i].runs),
        ) + finished@).to_multiset(),
{
    lemma_entries_complete(ready@, finished@, out@);
}

/// What is sorted from the entries of the queue and of the finished holds each of
/// them once and nothing else.
pub proof fn lemma_entries_complete(
    ready: Seq<Box<Task>>,
    finished: Seq<(usize, String, u64)>,
    out: Seq<(usize, String, u64)>,
)
    requires
        sorted_from(out, all_entries(ready, finished)),
    ensures
        out.to_multiset() == (Seq::new(
            ready.len(),
            |i: int| (ready[i].id, ready[i].name, ready[i].runs),
        ) + finished).to_multiset(),
{
    let all = all_entries(ready, finished);
    assert(all =~= Seq::new(ready.len(), |i: int| (ready[i].id, ready[i].name, ready[i].runs))
        + finished);
    assert forall|e: (usize, String, u64)| out.to_multiset().count(e) == all.to_multiset().count(
        e,
    ) by {
        lemma_count_by_id(out, e);
        lemma_count_by_id(all, e);
        assert(entries_of(out, e.0) == entries_of(all, e.0));
    }
    assert(out.to_multiset() =~= all.to_multiset());
}

} // verus!
