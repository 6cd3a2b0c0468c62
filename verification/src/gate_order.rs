//! The evaluation order of a fault tree's gates: every gate after the gates
//! among its inputs (Kahn's algorithm), or the report that the gates form a
//! cycle.

use vstd::prelude::*;
use crate::model::{GateEntry, gate_entry_ids, index_of, lemma_index_of, lemma_index_of_is};
use crate::text::owned;
use crate::model::gate_position;
use crate::sorted::lemma_push_to_set;

verus! {

/// No two gates share an id.
pub open spec fn distinct_ids(gs: Seq<GateEntry>) -> bool {
    forall|i: int, j: int|
        0 <= i < j < gs.len() ==> #[trigger] gate_entry_ids(gs)[i] != #[trigger] gate_entry_ids(gs)[j]
}

/// Which gate input `t` of gate `j` names, or `gs.len()` for a basic
/// event or anything else.
pub open spec fn input_gate(gs: Seq<GateEntry>, j: int, t: int) -> int {
    index_of(gate_entry_ids(gs), gs[j].gate.inputs@[t]@)
}

/// Gate `i` is an input of gate `j`.
pub open spec fn feeds(gs: Seq<GateEntry>, i: int, j: int) -> bool {
    &&& 0 <= i < gs.len()
    &&& 0 <= j < gs.len()
    &&& exists|t: int| 0 <= t < gs[j].gate.inputs@.len() && #[trigger] input_gate(gs, j, t) == i
}

/// `p` walks from gate to gate along inputs and comes back to its start.
pub open spec fn is_cycle(gs: Seq<GateEntry>, p: Seq<int>) -> bool {
    &&& p.len() >= 2
    &&& p[0] == p.last()
    &&& forall|k: int| 0 <= k < p.len() - 1 ==> #[trigger] feeds(gs, p[k], p[k + 1])
}

/// Some gates feed one another in a circle.
pub open spec fn has_gate_cycle(gs: Seq<GateEntry>) -> bool {
    exists|p: Seq<int>| #[trigger] is_cycle(gs, p)
}

/// `order` lists every gate id once, each after the ids of the gates that
/// feed it.
pub open spec fn evaluation_order(gs: Seq<GateEntry>, order: Seq<Seq<char>>) -> bool {
    &&& order.len() == gs.len()
    &&& forall|k: int| 0 <= k < order.len() ==> gate_entry_ids(gs).contains(#[trigger] order[k])
    &&& forall|a: int, b: int| 0 <= a < b < order.len() ==> #[trigger] order[a] != #[trigger] order[b]
    &&& forall|i: int, j: int|
        #[trigger] feeds(gs, i, j) ==> index_of(order, gate_entry_ids(gs)[i]) < index_of(
            order,
            gate_entry_ids(gs)[j],
        )
}

pub open spec fn cycle_message() -> Seq<char> {
    "cycle detected in fault tree gates (V-403)"@
}

// ---------------------------------------------------------------------------
// Counting the inputs still to be evaluated
// ---------------------------------------------------------------------------

/// How many of the first `m` inputs of gate `j` name a gate not in `done`.
pub open spec fn pending(gs: Seq<GateEntry>, j: int, done: Set<int>, m: int) -> nat
    decreases m,
{
    if m <= 0 {
        0
    } else {
        pending(gs, j, done, m - 1) + if input_gate(gs, j, m - 1) < gs.len() && !done.contains(
            input_gate(gs, j, m - 1),
        ) {
            1nat
        } else {
            0nat
        }
    }
}

/// How many of the first `m` inputs of gate `j` name gate `u`.
pub open spec fn occurrences(gs: Seq<GateEntry>, j: int, u: int, m: int) -> nat
    decreases m,
{
    if m <= 0 {
        0
    } else {
        occurrences(gs, j, u, m - 1) + if input_gate(gs, j, m - 1) == u {
            1nat
        } else {
            0nat
        }
    }
}

proof fn lemma_pending_insert(gs: Seq<GateEntry>, j: int, done: Set<int>, u: int, m: int)
    requires
        0 <= u < gs.len(),
        !done.contains(u),
    ensures
        pending(gs, j, done, m) == pending(gs, j, done.insert(u), m) + occurrences(gs, j, u, m),
    decreases m,
{
    if m > 0 {
        lemma_pending_insert(gs, j, done, u, m - 1);
    }
}

proof fn lemma_pending_zero(gs: Seq<GateEntry>, j: int, done: Set<int>, m: int, t: int)
    requires
        pending(gs, j, done, m) == 0,
        0 <= t < m,
        input_gate(gs, j, t) < gs.len(),
    ensures
        done.contains(input_gate(gs, j, t)),
    decreases m,
{
    if t < m - 1 {
        lemma_pending_zero(gs, j, done, m - 1, t);
    }
}

proof fn lemma_pending_positive(gs: Seq<GateEntry>, j: int, done: Set<int>, m: int) -> (t: int)
    requires
        pending(gs, j, done, m) > 0,
    ensures
        0 <= t < m,
        input_gate(gs, j, t) < gs.len(),
        !done.contains(input_gate(gs, j, t)),
    decreases m,
{
    if pending(gs, j, done, m - 1) > 0 {
        lemma_pending_positive(gs, j, done, m - 1)
    } else {
        m - 1
    }
}

proof fn lemma_pending_same(gs: Seq<GateEntry>, j: int, a: Set<int>, b: Set<int>, m: int)
    requires
        forall|x: int| 0 <= x < gs.len() ==> (a.contains(x) <==> b.contains(x)),
    ensures
        pending(gs, j, a, m) == pending(gs, j, b, m),
    decreases m,
{
    if m > 0 {
        lemma_pending_same(gs, j, a, b, m - 1);
        let x = input_gate(gs, j, m - 1);
        lemma_index_of(gate_entry_ids(gs), gs[j].gate.inputs@[m - 1]@);
        if x < gs.len() {
            assert(a.contains(x) <==> b.contains(x));
        }
    }
}

// ---------------------------------------------------------------------------
// Cycles
// ---------------------------------------------------------------------------

/// A sequence of `n + 1` numbers below `n` repeats one.
proof fn lemma_pigeonhole(s: Seq<int>, n: int) -> (r: (int, int))
    requires
        s.len() == n + 1,
        n >= 0,
        forall|k: int| 0 <= k < s.len() ==> 0 <= #[trigger] s[k] < n,
    ensures
        0 <= r.0 < r.1 < s.len(),
        s[r.0] == s[r.1],
{
    if s.no_duplicates() {
        s.unique_seq_to_set();
        vstd::set_lib::lemma_int_range(0, n);
        assert(s.to_set().subset_of(vstd::set_lib::set_int_range(0, n)));
        vstd::set_lib::lemma_len_subset(s.to_set(), vstd::set_lib::set_int_range(0, n));
        assert(false);
        (0, 0)
    } else {
        let (a, b) = choose|a: int, b: int| 0 <= a < s.len() && 0 <= b < s.len() && a != b && s[a] == s[b];
        if a < b {
            (a, b)
        } else {
            (b, a)
        }
    }
}

/// A walk back from `start` through `m` predecessors, each outside `done`.
spec fn walk_back(gs: Seq<GateEntry>, done: Set<int>, start: int, m: nat) -> Seq<int>
    decreases m,
{
    if m == 0 {
        seq![start]
    } else {
        let w = walk_back(gs, done, start, (m - 1) as nat);
        w.push(choose|h: int| 0 <= h < gs.len() && !done.contains(h) && feeds(gs, h, w.last()))
    }
}

proof fn lemma_walk_back(gs: Seq<GateEntry>, done: Set<int>, start: int, m: nat)
    requires
        0 <= start < gs.len(),
        !done.contains(start),
        forall|x: int|
            0 <= x < gs.len() && !done.contains(x) ==> exists|h: int|
                0 <= h < gs.len() && !done.contains(h) && #[trigger] feeds(gs, h, x),
    ensures
        walk_back(gs, done, start, m).len() == m + 1,
        forall|k: int|
            0 <= k <= m ==> 0 <= #[trigger] walk_back(gs, done, start, m)[k] < gs.len()
                && !done.contains(walk_back(gs, done, start, m)[k]),
        forall|k: int|
            0 <= k < m ==> #[trigger] feeds(
                gs,
                walk_back(gs, done, start, m)[k + 1],
                walk_back(gs, done, start, m)[k],
            ),
    decreases m,
{
    if m > 0 {
        lemma_walk_back(gs, done, start, (m - 1) as nat);
        let w = walk_back(gs, done, start, (m - 1) as nat);
        let x = w.last();
        assert(0 <= x < gs.len() && !done.contains(x));
        let h = choose|h: int| 0 <= h < gs.len() && !done.contains(h) && feeds(gs, h, x);
        assert(walk_back(gs, done, start, m) == w.push(h));
    }
}

/// Where some gate outside `done` exists and each such gate is fed by
/// another one outside `done`, the gates form a cycle.
#[verifier::spinoff_prover]
#[verifier::rlimit(40)]
proof fn lemma_cycle_from_predecessors(gs: Seq<GateEntry>, done: Set<int>, start: int)
    requires
        0 <= start < gs.len(),
        !done.contains(start),
        forall|x: int|
            0 <= x < gs.len() && !done.contains(x) ==> exists|h: int|
                0 <= h < gs.len() && !done.contains(h) && #[trigger] feeds(gs, h, x),
    ensures
        has_gate_cycle(gs),
{
    let n = gs.len() as int;
    lemma_walk_back(gs, done, start, n as nat);
    let w = walk_back(gs, done, start, n as nat);
    let (a, b) = lemma_pigeonhole(w, n);
    let c = Seq::new((b - a + 1) as nat, |k: int| w[b - k]);
    assert forall|k: int| 0 <= k < c.len() - 1 implies #[trigger] feeds(gs, c[k], c[k + 1]) by {
        let j = b - k - 1;
        assert(0 <= j < n);
        assert(feeds(gs, w[j + 1], w[j]));
        assert(c[k] == w[j + 1]);
        assert(c[k + 1] == w[j]);
    }
    assert(c[0] == w[b]);
    assert(c.last() == w[a]);
    assert(is_cycle(gs, c));
}

proof fn lemma_cycle_rises(gs: Seq<GateEntry>, order: Seq<Seq<char>>, p: Seq<int>, m: int)
    requires
        evaluation_order(gs, order),
        is_cycle(gs, p),
        1 <= m < p.len(),
    ensures
        index_of(order, gate_entry_ids(gs)[p[0]]) < index_of(order, gate_entry_ids(gs)[p[m]]),
    decreases m,
{
    let k = m - 1;
    assert(feeds(gs, p[k], p[k + 1]));
    if m > 1 {
        lemma_cycle_rises(gs, order, p, m - 1);
    }
}

/// An evaluation order leaves no room for a cycle.
proof fn lemma_order_acyclic(gs: Seq<GateEntry>, order: Seq<Seq<char>>)
    requires
        evaluation_order(gs, order),
    ensures
        !has_gate_cycle(gs),
{
    if has_gate_cycle(gs) {
        let p = choose|p: Seq<int>| #[trigger] is_cycle(gs, p);
        lemma_cycle_rises(gs, order, p, p.len() - 1);
    }
}

} // verus!

verus! {

proof fn lemma_occurrences_monotone(gs: Seq<GateEntry>, j: int, u: int, a: int, b: int)
    requires
        0 <= a <= b,
    ensures
        occurrences(gs, j, u, a) <= occurrences(gs, j, u, b),
    decreases b,
{
    if b > a {
        lemma_occurrences_monotone(gs, j, u, a, b - 1);
    }
}

proof fn lemma_occurrence_counted(gs: Seq<GateEntry>, j: int, u: int, t: int)
    requires
        0 <= t,
        input_gate(gs, j, t) == u,
    ensures
        occurrences(gs, j, u, t + 1) == occurrences(gs, j, u, t) + 1,
{
}

/// Distinct numbers below `n` are at most `n`; exactly `n` of them are all of them.
proof fn lemma_distinct_below(s: Seq<int>, n: int)
    requires
        n >= 0,
        s.no_duplicates(),
        forall|k: int| 0 <= k < s.len() ==> 0 <= #[trigger] s[k] < n,
    ensures
        s.len() <= n,
        s.len() == n ==> forall|x: int| 0 <= x < n ==> s.contains(x),
        s.len() < n ==> exists|x: int| 0 <= x < n && !s.contains(x),
{
    s.unique_seq_to_set();
    vstd::set_lib::lemma_int_range(0, n);
    let r = vstd::set_lib::set_int_range(0, n);
    assert(s.to_set().subset_of(r));
    vstd::set_lib::lemma_len_subset(s.to_set(), r);
    if s.len() == n {
        vstd::set_lib::lemma_subset_equality(s.to_set(), r);
        assert forall|x: int| 0 <= x < n implies s.contains(x) by {
            assert(r.contains(x));
            assert(s.to_set().contains(x));
        }
    }
    if s.len() < n && forall|x: int| 0 <= x < n ==> s.contains(x) {
        assert(r.subset_of(s.to_set()));
        vstd::set_lib::lemma_len_subset(r, s.to_set());
    }
}

/// For each gate, which gate each of its inputs names (`gs.len()` for none).
fn input_table(gs: &Vec<GateEntry>) -> (table: Vec<Vec<usize>>)
    ensures
        table@.len() == gs@.len(),
        forall|j: int| 0 <= j < gs@.len() ==> (#[trigger] table@[j])@.len() == gs@[j].gate.inputs@.len(),
        forall|j: int, t: int|
            0 <= j < gs@.len() && 0 <= t < gs@[j].gate.inputs@.len() ==> #[trigger] table@[j]@[t]
                == input_gate(gs@, j, t),
{
    let mut table: Vec<Vec<usize>> = Vec::new();
    let mut j: usize = 0;
    while j < gs.len()
        invariant
            j <= gs@.len(),
            table@.len() == j,
            forall|a: int| 0 <= a < j ==> (#[trigger] table@[a])@.len() == gs@[a].gate.inputs@.len(),
            forall|a: int, t: int|
                0 <= a < j && 0 <= t < gs@[a].gate.inputs@.len() ==> #[trigger] table@[a]@[t]
                    == input_gate(gs@, a, t),
        decreases gs.len() - j,
    {
        let inputs = &gs[j].gate.inputs;
        let mut row: Vec<usize> = Vec::new();
        let mut t: usize = 0;
        while t < inputs.len()
            invariant
                j < gs@.len(),
                inputs@ == gs@[j as int].gate.inputs@,
                t <= inputs@.len(),
                row@.len() == t,
                forall|b: int| 0 <= b < t ==> #[trigger] row@[b] == input_gate(gs@, j as int, b),
            decreases inputs.len() - t,
        {
            let g = gate_position(gs, inputs[t].as_str());
            row.push(g);
            t = t + 1;
        }
        table.push(row);
        j = j + 1;
    }
    table
}

} // verus!

verus! {

/// The inputs of every gate, by index, and the gates still to evaluate.
pub open spec fn table_ok(gs: Seq<GateEntry>, table: Seq<Vec<usize>>) -> bool {
    &&& table.len() == gs.len()
    &&& forall|j: int| 0 <= j < gs.len() ==> (#[trigger] table[j])@.len() == gs[j].gate.inputs@.len()
    &&& forall|j: int, t: int|
        0 <= j < gs.len() && 0 <= t < gs[j].gate.inputs@.len() ==> #[trigger] table[j]@[t]
            == input_gate(gs, j, t)
}

/// How many inputs of each gate name another gate.
fn initial_counts(gs: &Vec<GateEntry>, table: &Vec<Vec<usize>>) -> (indeg: Vec<usize>)
    requires
        table_ok(gs@, table@),
    ensures
        indeg@.len() == gs@.len(),
        forall|j: int|
            0 <= j < gs@.len() ==> #[trigger] indeg@[j] == pending(
                gs@,
                j,
                Set::empty(),
                gs@[j].gate.inputs@.len() as int,
            ),
{
    let n = gs.len();
    let mut indeg: Vec<usize> = Vec::new();
    let mut j: usize = 0;
    while j < n
        invariant
            n == gs@.len(),
            table_ok(gs@, table@),
            j <= n,
            indeg@.len() == j,
            forall|a: int|
                0 <= a < j ==> #[trigger] indeg@[a] == pending(
                    gs@,
                    a,
                    Set::empty(),
                    gs@[a].gate.inputs@.len() as int,
                ),
        decreases n - j,
    {
        let row = &table[j];
        let mut count: usize = 0;
        let mut t: usize = 0;
        while t < row.len()
            invariant
                n == gs@.len(),
                j < n,
                table_ok(gs@, table@),
                row@ == table@[j as int]@,
                t <= row@.len(),
                count == pending(gs@, j as int, Set::empty(), t as int),
                count <= t,
            decreases row.len() - t,
        {
            if row[t] < n {
                count = count + 1;
            }
            t = t + 1;
        }
        indeg.push(count);
        j = j + 1;
    }
    indeg
}

/// The gates with no gate among their inputs, in gate order.
fn sources(indeg: &Vec<usize>) -> (queue: Vec<usize>)
    ensures
        queue@.len() <= indeg@.len(),
        forall|k: int| 0 <= k < queue@.len() ==> (#[trigger] queue@[k]) < indeg@.len(),
        forall|a: int, b: int| 0 <= a < b < queue@.len() ==> queue@[a] < queue@[b],
        forall|j: int| 0 <= j < indeg@.len() ==> (queue@.contains(j as usize) <==> #[trigger] indeg@[j] == 0),
{
    let mut queue: Vec<usize> = Vec::new();
    let mut j: usize = 0;
    while j < indeg.len()
        invariant
            j <= indeg@.len(),
            queue@.len() <= j,
            forall|k: int| 0 <= k < queue@.len() ==> (#[trigger] queue@[k]) < j,
            forall|a: int, b: int| 0 <= a < b < queue@.len() ==> queue@[a] < queue@[b],
            forall|x: int| 0 <= x < j ==> (queue@.contains(x as usize) <==> #[trigger] indeg@[x] == 0),
        decreases indeg.len() - j,
    {
        let ghost old_q = queue@;
        if indeg[j] == 0 {
            queue.push(j);
        }
        proof {
            assert forall|x: int| 0 <= x < j + 1 implies (queue@.contains(x as usize) <==> #[trigger] indeg@[x] == 0) by {
                if queue@.contains(x as usize) {
                    let k = choose|k: int| 0 <= k < queue@.len() && queue@[k] == x as usize;
                    if k < old_q.len() {
                        assert(old_q[k] == x as usize);
                        assert(old_q.contains(x as usize));
                    }
                }
                if x < j && old_q.contains(x as usize) {
                    let k = choose|k: int| 0 <= k < old_q.len() && old_q[k] == x as usize;
                    assert(queue@[k] == x as usize);
                }
                if x == j && indeg@[x] == 0 {
                    assert(queue@[queue@.len() - 1] == x as usize);
                }
            }
        }
        j = j + 1;
    }
    queue
}

} // verus!

verus! {

/// The gates among the first `head` entries of `queue`.
pub open spec fn done_set(queue: Seq<usize>, head: int) -> Set<int> {
    Set::new(|x: int| exists|k: int| 0 <= k < head && queue[k] as int == x)
}

/// Every gate in `queue` comes after the gates among its inputs.
pub open spec fn inputs_earlier(gs: Seq<GateEntry>, table: Seq<Vec<usize>>, queue: Seq<usize>) -> bool {
    forall|q: int, t: int|
        0 <= q < queue.len() && 0 <= t < table[queue[q] as int]@.len() && #[trigger] table[queue[q] as int]@[t]
            < gs.len() ==> exists|r: int| 0 <= r < q && queue[r] == table[queue[q] as int]@[t]
}

/// The state of Kahn's algorithm with the first `head` queued gates taken:
/// each count is the number of inputs naming a gate not yet taken, and a
/// gate is queued exactly when its count is zero.
pub open spec fn kahn_state(
    gs: Seq<GateEntry>,
    table: Seq<Vec<usize>>,
    indeg: Seq<usize>,
    queue: Seq<usize>,
    head: int,
) -> bool {
    &&& table_ok(gs, table)
    &&& indeg.len() == gs.len()
    &&& 0 <= head <= queue.len()
    &&& queue.no_duplicates()
    &&& forall|k: int| 0 <= k < queue.len() ==> (#[trigger] queue[k]) < gs.len()
    &&& forall|j: int|
        0 <= j < gs.len() ==> #[trigger] indeg[j] == pending(
            gs,
            j,
            done_set(queue, head),
            gs[j].gate.inputs@.len() as int,
        )
    &&& forall|j: int| 0 <= j < gs.len() ==> (queue.contains(j as usize) <==> #[trigger] indeg[j] == 0)
    &&& inputs_earlier(gs, table, queue)
}

proof fn lemma_done_step(queue: Seq<usize>, head: int)
    requires
        0 <= head < queue.len(),
    ensures
        done_set(queue, head + 1) == done_set(queue, head).insert(queue[head] as int),
{
    assert forall|x: int| done_set(queue, head + 1).contains(x) <==> done_set(queue, head).insert(
        queue[head] as int,
    ).contains(x) by {
        if done_set(queue, head + 1).contains(x) {
            let k = choose|k: int| 0 <= k < head + 1 && queue[k] as int == x;
            if k < head {
                assert(done_set(queue, head).contains(x));
            }
        }
        if done_set(queue, head).contains(x) {
            let k = choose|k: int| 0 <= k < head && queue[k] as int == x;
            assert(0 <= k < head + 1 && queue[k] as int == x);
        }
        if x == queue[head] as int {
            assert(0 <= head < head + 1 && queue[head] as int == x);
        }
    }
    assert(done_set(queue, head + 1) =~= done_set(queue, head).insert(queue[head] as int));
}

proof fn lemma_done_unchanged_by_push(queue: Seq<usize>, head: int, x: usize)
    requires
        0 <= head <= queue.len(),
    ensures
        done_set(queue.push(x), head) == done_set(queue, head),
{
    assert forall|y: int| done_set(queue.push(x), head).contains(y) <==> done_set(queue, head).contains(y) by {
        if done_set(queue.push(x), head).contains(y) {
            let k = choose|k: int| 0 <= k < head && queue.push(x)[k] as int == y;
            assert(queue[k] as int == y);
        }
        if done_set(queue, head).contains(y) {
            let k = choose|k: int| 0 <= k < head && queue[k] as int == y;
            assert(queue.push(x)[k] as int == y);
        }
    }
    assert(done_set(queue.push(x), head) =~= done_set(queue, head));
}

} // verus!

verus! {

/// Take `queue[head - 1]`: every gate it feeds has one input
/// fewer to wait for, and a gate left with none joins the queue.
#[verifier::rlimit(60)]
fn release(
    gs: &Vec<GateEntry>,
    table: &Vec<Vec<usize>>,
    indeg: &mut Vec<usize>,
    queue: &mut Vec<usize>,
    head: usize,
)
    requires
        1 <= head <= old(queue)@.len(),
        kahn_state(gs@, table@, old(indeg)@, old(queue)@, head - 1),
    ensures
        kahn_state(gs@, table@, final(indeg)@, final(queue)@, head as int),
        final(queue)@.len() >= old(queue)@.len(),
        final(queue)@.take(old(queue)@.len() as int) == old(queue)@,
{
    let n = gs.len();
    let u = queue[head - 1];
    let ghost q0 = queue@;
    let ghost d0 = done_set(queue@, head - 1);
    let ghost d1 = done_set(queue@, head as int);
    proof {
        lemma_done_step(queue@, head - 1);
        if d0.contains(u as int) {
            let k = choose|k: int| 0 <= k < head - 1 && queue@[k] as int == u as int;
            assert(queue@[k] == queue@[head - 1]);
        }
    }
    let mut j: usize = 0;
    while j < n
        invariant
            n == gs@.len(),
            table_ok(gs@, table@),
            indeg@.len() == n,
            1 <= head <= q0.len() <= queue@.len(),
            queue@.take(q0.len() as int) == q0,
            u == q0[head - 1],
            u < n,
            !d0.contains(u as int),
            d0 == done_set(queue@, head - 1),
            d1 == done_set(queue@, head as int),
            d1 == d0.insert(u as int),
            queue@.no_duplicates(),
            forall|k: int| 0 <= k < queue@.len() ==> (#[trigger] queue@[k]) < n,
            j <= n,
            forall|a: int|
                0 <= a < j ==> #[trigger] indeg@[a] == pending(gs@, a, d1, gs@[a].gate.inputs@.len() as int),
            forall|a: int|
                j <= a < n ==> #[trigger] indeg@[a] == pending(gs@, a, d0, gs@[a].gate.inputs@.len() as int),
            forall|a: int| 0 <= a < n ==> (queue@.contains(a as usize) <==> #[trigger] indeg@[a] == 0),
            inputs_earlier(gs@, table@, queue@),
        decreases n - j,
    {
        let row = &table[j];
        let ghost len_j = gs@[j as int].gate.inputs@.len() as int;
        proof {
            lemma_pending_insert(gs@, j as int, d0, u as int, len_j);
        }
        let mut t: usize = 0;
        while t < row.len()
            invariant
                n == gs@.len(),
                table_ok(gs@, table@),
                j < n,
                row@ == table@[j as int]@,
                len_j == gs@[j as int].gate.inputs@.len(),
                row@.len() == len_j,
                indeg@.len() == n,
                1 <= head <= q0.len() <= queue@.len(),
                queue@.take(q0.len() as int) == q0,
                u == q0[head - 1],
                u < n,
                !d0.contains(u as int),
                d0 == done_set(queue@, head - 1),
                d1 == done_set(queue@, head as int),
                d1 == d0.insert(u as int),
                queue@.no_duplicates(),
                forall|k: int| 0 <= k < queue@.len() ==> (#[trigger] queue@[k]) < n,
                t <= row@.len(),
                pending(gs@, j as int, d0, len_j) == pending(gs@, j as int, d1, len_j) + occurrences(
                    gs@,
                    j as int,
                    u as int,
                    len_j,
                ),
                indeg@[j as int] + occurrences(gs@, j as int, u as int, t as int) == pending(
                    gs@,
                    j as int,
                    d0,
                    len_j,
                ),
                forall|a: int|
                    0 <= a < j ==> #[trigger] indeg@[a] == pending(gs@, a, d1, gs@[a].gate.inputs@.len() as int),
                forall|a: int|
                    j < a < n ==> #[trigger] indeg@[a] == pending(gs@, a, d0, gs@[a].gate.inputs@.len() as int),
                forall|a: int| 0 <= a < n ==> (queue@.contains(a as usize) <==> #[trigger] indeg@[a] == 0),
                inputs_earlier(gs@, table@, queue@),
            decreases row.len() - t,
        {
            if row[t] == u {
                proof {
                    assert(table@[j as int]@[t as int] == input_gate(gs@, j as int, t as int));
                    lemma_occurrence_counted(gs@, j as int, u as int, t as int);
                    lemma_occurrences_monotone(gs@, j as int, u as int, t as int + 1, len_j);
                }
                let c = indeg[j] - 1;
                indeg.set(j, c);
                if c == 0 {
                    proof {
                        assert(pending(gs@, j as int, d1, len_j) == 0);
                    }
                    let ghost before = queue@;
                    queue.push(j);
                    proof {
                        lemma_done_unchanged_by_push(before, head - 1, j);
                        lemma_done_unchanged_by_push(before, head as int, j);
                        assert(queue@.take(q0.len() as int) =~= q0) by {
                            assert(before.take(q0.len() as int) == q0);
                        }
                        assert forall|a: int, b: int|
                            0 <= a < queue@.len() && 0 <= b < queue@.len() && a != b implies queue@[a]
                            != queue@[b] by {
                            if a < before.len() && b < before.len() {
                                assert(before[a] != before[b]);
                            } else if a == before.len() {
                                assert(before.contains(queue@[b]));
                            } else {
                                assert(before.contains(queue@[a]));
                            }
                        }
                        assert forall|a: int| 0 <= a < n implies (queue@.contains(a as usize) <==> #[trigger] indeg@[a] == 0) by {
                            if a != j as int {
                                if queue@.contains(a as usize) {
                                    let k = choose|k: int| 0 <= k < queue@.len() && queue@[k] == a as usize;
                                    assert(before[k] == a as usize);
                                }
                                if before.contains(a as usize) {
                                    let k = choose|k: int| 0 <= k < before.len() && before[k] == a as usize;
                                    assert(queue@[k] == a as usize);
                                }
                            } else {
                                assert(queue@[before.len() as int] == j);
                            }
                        }
                        assert forall|q: int, tt: int|
                            0 <= q < queue@.len() && 0 <= tt < table@[queue@[q] as int]@.len()
                                && #[trigger] table@[queue@[q] as int]@[tt] < gs@.len() implies exists|r: int|
                            0 <= r < q && queue@[r] == table@[queue@[q] as int]@[tt] by {
                            if q < before.len() {
                                assert(before[q] == queue@[q]);
                                let r = choose|r: int| 0 <= r < q && before[r] == table@[before[q] as int]@[tt];
                                assert(queue@[r] == before[r]);
                            } else {
                                let h = table@[j as int]@[tt] as int;
                                assert(h == input_gate(gs@, j as int, tt));
                                lemma_pending_zero(gs@, j as int, d1, len_j, tt);
                                assert(d1.contains(h));
                                let r = choose|r: int| 0 <= r < head && before[r] as int == h;
                                assert(queue@[r] == before[r]);
                            }
                        }
                    }
                }
            }
            t = t + 1;
        }
        j = j + 1;
    }
}

} // verus!

verus! {

/// The ids of `order`'s gates.
pub open spec fn queue_ids(gs: Seq<GateEntry>, queue: Seq<usize>) -> Seq<Seq<char>> {
    queue.map_values(|k: usize| gate_entry_ids(gs)[k as int])
}

/// The result of ordering `gs` for evaluation towards root `root`: all gate
/// ids, each after the gates among its inputs, then `root` where it is not
/// a gate; an error where the gates feed one another in a circle.
pub open spec fn ordered_for(gs: Seq<GateEntry>, root: Seq<char>, r: Result<Vec<String>, String>) -> bool {
    match r {
        Ok(v) => {
            let ids = v@.map_values(|s: String| s@);
            &&& evaluation_order(gs, ids.take(gs.len() as int))
            &&& if gate_entry_ids(gs).contains(root) {
                ids.len() == gs.len()
            } else {
                ids.len() == gs.len() + 1 && ids.last() == root
            }
        },
        Err(e) => e@ == cycle_message(),
    }
}

/// Order the gates for evaluation (Kahn's algorithm, taking ready gates in
/// gate order): every gate comes after the gates among its inputs, and the
/// root cause is appended where it is not a gate. Fails exactly when the
/// gates feed one another in a circle.
pub fn topological_sort_gates(gates: &Vec<GateEntry>, root_id: &str) -> (r: Result<Vec<String>, String>)
    requires
        distinct_ids(gates@),
    ensures
        r is Err <==> has_gate_cycle(gates@),
        ordered_for(gates@, root_id@, r),
{
    let n = gates.len();
    let table = input_table(gates);
    let mut indeg = initial_counts(gates, &table);
    let mut queue = sources(&indeg);
    proof {
        assert(done_set(queue@, 0) =~= Set::<int>::empty());
        assert forall|a: int, b: int|
            0 <= a < queue@.len() && 0 <= b < queue@.len() && a != b implies queue@[a] != queue@[b] by {
            if a < b {
                assert(queue@[a] < queue@[b]);
            } else {
                assert(queue@[b] < queue@[a]);
            }
        }
        assert forall|q: int, t: int|
            0 <= q < queue@.len() && 0 <= t < table@[queue@[q] as int]@.len()
                && #[trigger] table@[queue@[q] as int]@[t] < gates@.len() implies exists|r: int|
            0 <= r < q && queue@[r] == table@[queue@[q] as int]@[t] by {
            let j = queue@[q] as int;
            assert(queue@.contains(queue@[q]));
            assert(indeg@[j] == 0);
            lemma_pending_zero(gates@, j, Set::empty(), gates@[j].gate.inputs@.len() as int, t);
        }
    }
    let mut head: usize = 0;
    while head < queue.len()
        invariant
            n == gates@.len(),
            distinct_ids(gates@),
            kahn_state(gates@, table@, indeg@, queue@, head as int),
        decreases n + 1 - head,
    {
        proof {
            lemma_distinct_below(queue@.map_values(|k: usize| k as int), n as int);
        }
        head = head + 1;
        release(gates, &table, &mut indeg, &mut queue, head);
    }
    proof {
        lemma_distinct_below(queue@.map_values(|k: usize| k as int), n as int);
    }
    if queue.len() < n {
        proof {
            let qs = queue@.map_values(|k: usize| k as int);
            let done = done_set(queue@, head as int);
            let x = choose|x: int| 0 <= x < n && !qs.contains(x);
            assert forall|y: int| 0 <= y < n && !done.contains(y) implies exists|h: int|
                0 <= h < n && !done.contains(h) && #[trigger] feeds(gates@, h, y) by {
                if queue@.contains(y as usize) {
                    let k = choose|k: int| 0 <= k < queue@.len() && queue@[k] == y as usize;
                    assert(done.contains(y));
                }
                assert(indeg@[y] != 0);
                let t = lemma_pending_positive(gates@, y, done, gates@[y].gate.inputs@.len() as int);
                let h = input_gate(gates@, y, t);
                lemma_index_of(gate_entry_ids(gates@), gates@[y].gate.inputs@[t]@);
                assert(feeds(gates@, h, y));
            }
            if done.contains(x) {
                let k = choose|k: int| 0 <= k < head && queue@[k] as int == x;
                assert(qs[k] == x);
                assert(qs.contains(x));
            }
            lemma_cycle_from_predecessors(gates@, done, x);
        }
        return Err(owned("cycle detected in fault tree gates (V-403)"));
    }
    let mut order: Vec<String> = Vec::new();
    let mut k: usize = 0;
    while k < n
        invariant
            n == gates@.len(),
            queue@.len() == n,
            forall|i: int| 0 <= i < n ==> (#[trigger] queue@[i]) < n,
            k <= n,
            order@.map_values(|s: String| s@) == queue_ids(gates@, queue@).take(k as int),
        decreases n - k,
    {
        let id = owned(gates[queue[k]].id.as_str());
        let ghost before = order@;
        order.push(id);
        proof {
            assert(order@.map_values(|s: String| s@) =~= before.map_values(|s: String| s@).push(id@));
            assert(queue_ids(gates@, queue@).take(k as int + 1) =~= queue_ids(gates@, queue@).take(
                k as int,
            ).push(queue_ids(gates@, queue@)[k as int]));
        }
        k = k + 1;
    }
    let ghost ids = gate_entry_ids(gates@);
    let ghost ov = order@.map_values(|s: String| s@);
    proof {
        assert(ov =~= queue_ids(gates@, queue@));
        let qs = queue@.map_values(|k: usize| k as int);
        assert forall|a: int, b: int| 0 <= a < b < ov.len() implies #[trigger] ov[a] != #[trigger] ov[b] by {
            assert(queue@[a] != queue@[b]);
        }
        assert forall|x: int| 0 <= x < n implies index_of(ov, ids[x]) < n && ov[index_of(ov, ids[x])] == ids[x]
            && queue@[index_of(ov, ids[x])] as int == x by {
            assert(qs.contains(x));
            let p = choose|p: int| 0 <= p < qs.len() && qs[p] == x;
            assert forall|c: int| 0 <= c < p implies ov[c] != ids[x] by {
                assert(queue@[c] != queue@[p]);
            }
            lemma_index_of_is(ov, ids[x], p);
        }
        assert forall|i: int, j: int| #[trigger] feeds(gates@, i, j) implies index_of(ov, ids[i]) < index_of(
            ov,
            ids[j],
        ) by {
            let t = choose|t: int| 0 <= t < gates@[j].gate.inputs@.len() && #[trigger] input_gate(gates@, j, t) == i;
            assert(index_of(ov, ids[j]) < n && queue@[index_of(ov, ids[j])] as int == j);
            assert(index_of(ov, ids[i]) < n && queue@[index_of(ov, ids[i])] as int == i);
            let q = index_of(ov, ids[j]);
            assert(table@[j]@[t] == input_gate(gates@, j, t));
            assert(table@[queue@[q] as int]@[t] == i);
            assert(inputs_earlier(gates@, table@, queue@));
            let r = choose|r: int| 0 <= r < q && queue@[r] == table@[queue@[q] as int]@[t];
            let p = index_of(ov, ids[i]);
            lemma_index_of(ov, ids[i]);
            lemma_index_of(ov, ids[j]);
            assert(queue@.no_duplicates());
            if p != r {
                assert(queue@[p] != queue@[r]);
            }
        }
        assert(ov.take(n as int) =~= ov);
        assert(evaluation_order(gates@, ov));
        lemma_order_acyclic(gates@, ov);
    }
    let mut found = false;
    let mut m: usize = 0;
    while m < n
        invariant
            n == gates@.len(),
            order@.len() == n,
            ov == order@.map_values(|s: String| s@),
            m <= n,
            found == ov.take(m as int).contains(root_id@),
        decreases n - m,
    {
        if crate::text::same(order[m].as_str(), root_id) {
            found = true;
        }
        proof {
            let a = ov.take(m as int);
            let b = ov.take(m as int + 1);
            assert(b =~= a.push(ov[m as int]));
            if a.contains(root_id@) {
                let i = choose|i: int| 0 <= i < a.len() && a[i] == root_id@;
                assert(b[i] == root_id@);
            }
            if ov[m as int] == root_id@ {
                assert(b[m as int] == root_id@);
            }
            if b.contains(root_id@) {
                let i = choose|i: int| 0 <= i < b.len() && b[i] == root_id@;
                if i < m {
                    assert(a[i] == root_id@);
                }
            }
        }
        m = m + 1;
    }
    proof {
        assert(ov.take(n as int) =~= ov);
        if ov.contains(root_id@) {
            let p = choose|p: int| 0 <= p < ov.len() && ov[p] == root_id@;
            assert(ids.contains(ov[p]));
        }
        if ids.contains(root_id@) {
            let x = choose|x: int| 0 <= x < ids.len() && ids[x] == root_id@;
            lemma_index_of(ov, ids[x]);
            assert(index_of(ov, ids[x]) < n && queue@[index_of(ov, ids[x])] as int == x);
            assert(ov[index_of(ov, ids[x])] == ids[x]);
            assert(ov.contains(root_id@));
        }
        assert(found == ids.contains(root_id@));
    }
    if !found {
        order.push(owned(root_id));
        proof {
            assert(order@.map_values(|s: String| s@) =~= ov.push(root_id@));
            assert(ov.push(root_id@).take(n as int) =~= ov);
        }
    } else {
        proof {
            assert(ov.take(n as int) =~= ov);
        }
    }
    Ok(order)
}

} // verus!
