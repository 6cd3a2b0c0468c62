//! Fault-tree analysis: override keys, k-of-n combinations, cut-set
//! minimisation and minimal cut set enumeration (MOCUS).

use vstd::prelude::*;
use crate::extension::string_views;
use crate::fault_rules::gates_of;
use crate::model::{FaultTree, Gate, GateEntry, GateType, gate_entry_ids, index_of, lemma_index_of,
    gate_position};
use crate::rows::{
    row_view, rows_view, rows_sorted, sorted_rows, insert_row_sorted, normalize_row, copy_row,
    lemma_is_sorted_rows,
};
use crate::sorted::{sorted_seq, lemma_push_to_set};
use crate::text::{owned, same, cat3};

verus! {

/// A row of identifiers: a candidate cut set.
pub type Row = Seq<Seq<char>>;

/// The key under which an external probability for basic event `be_id` of
/// fault tree `ft_id` is looked up: `"{ft_id}::{be_id}"`.
pub fn override_key(ft_id: &str, be_id: &str) -> (k: String)
    ensures
        k@ == ft_id@ + "::"@ + be_id@,
{
    cat3(ft_id, "::", be_id)
}

// ---------------------------------------------------------------------------
// Combinations
// ---------------------------------------------------------------------------

/// The `k`-element sub-sequences of `items`, in order: those with the first
/// item first (followed by the `k-1`-combinations of the rest), then those
/// of the rest.
pub open spec fn combinations(items: Seq<Seq<char>>, k: nat) -> Seq<Row>
    decreases items.len(),
{
    if k == 0 {
        seq![Seq::empty()]
    } else if items.len() == 0 {
        Seq::empty()
    } else {
        combinations(items.drop_first(), (k - 1) as nat).map_values(
            |c: Row| seq![items[0]] + c,
        ) + combinations(items.drop_first(), k)
    }
}

/// The binomial coefficient.
pub open spec fn binomial(n: nat, k: nat) -> nat
    decreases n,
{
    if k == 0 {
        1
    } else if n == 0 {
        0
    } else {
        binomial((n - 1) as nat, (k - 1) as nat) + binomial((n - 1) as nat, k)
    }
}

/// There are `n choose k` combinations, each with `k` items.
pub proof fn lemma_combinations_count(items: Seq<Seq<char>>, k: nat)
    ensures
        combinations(items, k).len() == binomial(items.len(), k),
        forall|i: int|
            0 <= i < combinations(items, k).len() ==> (#[trigger] combinations(items, k)[i]).len()
                == k,
    decreases items.len(),
{
    if k > 0 && items.len() > 0 {
        let rest = items.drop_first();
        lemma_combinations_count(rest, (k - 1) as nat);
        lemma_combinations_count(rest, k);
        let a = combinations(rest, (k - 1) as nat).map_values(|c: Row| seq![items[0]] + c);
        let b = combinations(rest, k);
        assert forall|i: int| 0 <= i < combinations(items, k).len() implies (#[trigger] combinations(
            items,
            k,
        )[i]).len() == k by {
            if i < a.len() {
                assert(combinations(items, k)[i] == a[i]);
            } else {
                assert(combinations(items, k)[i] == b[i - a.len()]);
            }
        }
    }
}

fn combinations_from(items: &Vec<String>, start: usize, k: usize) -> (r: Vec<Vec<String>>)
    requires
        start <= items@.len(),
    ensures
        rows_view(r@) == combinations(string_views(items@).skip(start as int), k as nat),
    decreases items@.len() - start, k,
{
    let ghost rest = string_views(items@).skip(start as int);
    if k == 0 {
        let mut r: Vec<Vec<String>> = Vec::new();
        let e: Vec<String> = Vec::new();
        assert(row_view(e) =~= Seq::<Seq<char>>::empty());
        r.push(e);
        assert(rows_view(r@) =~= seq![Seq::<Seq<char>>::empty()]);
        return r;
    }
    if start == items.len() {
        let r: Vec<Vec<String>> = Vec::new();
        assert(rest.len() == 0);
        assert(rows_view(r@) =~= Seq::<Row>::empty());
        return r;
    }
    proof {
        assert(rest.drop_first() =~= string_views(items@).skip(start + 1));
        assert(rest[0] == items@[start as int]@);
    }
    let with_first = combinations_from(items, start + 1, k - 1);
    let without_first = combinations_from(items, start + 1, k);
    let ghost wf = rows_view(with_first@);
    let mut r: Vec<Vec<String>> = Vec::new();
    let mut i: usize = 0;
    while i < with_first.len()
        invariant
            i <= with_first@.len(),
            wf == rows_view(with_first@),
            start < items@.len(),
            rows_view(r@) == wf.take(i as int).map_values(
                |c: Row| seq![items@[start as int]@] + c,
            ),
        decreases with_first.len() - i,
    {
        let mut row: Vec<String> = Vec::new();
        row.push(owned(items[start].as_str()));
        let tail = copy_row(&with_first[i]);
        let mut j: usize = 0;
        let ghost head = row_view(row);
        while j < tail.len()
            invariant
                j <= tail@.len(),
                row_view(row) == head + row_view(tail).take(j as int),
            decreases tail.len() - j,
        {
            let ghost before = row@;
            let s = owned(tail[j].as_str());
            row.push(s);
            assert(string_views(row@) =~= string_views(before).push(s@));
            assert(row_view(tail).take(j + 1) =~= row_view(tail).take(j as int).push(tail@[j as int]@));
            assert(row_view(row) =~= head + row_view(tail).take(j + 1));
            j = j + 1;
        }
        assert(row_view(tail).take(tail@.len() as int) =~= row_view(tail));
        let ghost before_r = r@;
        r.push(row);
        proof {
            assert(head =~= seq![items@[start as int]@]);
            assert(rows_view(r@) =~= rows_view(before_r).push(row_view(row)));
            assert(wf.take(i + 1) =~= wf.take(i as int).push(wf[i as int]));
        }
        i = i + 1;
    }
    assert(wf.take(with_first@.len() as int) =~= wf);
    let ghost mid = rows_view(r@);
    let mut k2: usize = 0;
    let ghost wo = rows_view(without_first@);
    while k2 < without_first.len()
        invariant
            k2 <= without_first@.len(),
            wo == rows_view(without_first@),
            rows_view(r@) == mid + wo.take(k2 as int),
        decreases without_first.len() - k2,
    {
        let ghost before_r = r@;
        let c = copy_row(&without_first[k2]);
        r.push(c);
        assert(rows_view(r@) =~= rows_view(before_r).push(row_view(c)));
        assert(wo.take(k2 + 1) =~= wo.take(k2 as int).push(wo[k2 as int]));
        k2 = k2 + 1;
    }
    assert(wo.take(without_first@.len() as int) =~= wo);
    assert(rows_view(r@) =~= combinations(rest, k as nat));
    r
}

/// The `k`-element combinations of `items`, in order.
pub fn generate_combinations(items: &Vec<String>, k: usize) -> (r: Vec<Vec<String>>)
    ensures
        rows_view(r@) == combinations(string_views(items@), k as nat),
{
    assert(string_views(items@).skip(0) =~= string_views(items@));
    combinations_from(items, 0, k)
}

// ---------------------------------------------------------------------------
// Minimisation
// ---------------------------------------------------------------------------

/// A row as a set: its identifiers sorted, each once.
pub open spec fn normal(r: Row) -> Row {
    sorted_seq(r.to_set())
}

/// The distinct normalised rows, in row order.
pub open spec fn canonical(rows: Seq<Row>) -> Seq<Row> {
    sorted_rows(rows.map_values(|r: Row| normal(r)).to_set())
}

/// Whether another row of `all` is a subset of row `i`.
pub open spec fn subsumed(all: Seq<Row>, i: int) -> bool {
    exists|j: int| 0 <= j < all.len() && j != i && all[j].to_set().subset_of(#[trigger] all[i].to_set())
}

/// The first `n` rows of `all` that no other row is a subset of.
pub open spec fn minimal_upto(all: Seq<Row>, n: int) -> Seq<Row>
    decreases n,
{
    if n <= 0 {
        Seq::empty()
    } else {
        minimal_upto(all, n - 1) + if subsumed(all, n - 1) {
            Seq::empty()
        } else {
            seq![all[n - 1]]
        }
    }
}

/// `rows` as distinct sets, in row order, without any that another row
/// implies (a superset of another row).
pub open spec fn minimize(rows: Seq<Row>) -> Seq<Row> {
    let all = canonical(rows);
    minimal_upto(all, all.len() as int)
}

/// Whether every identifier of `a` occurs in `b`.
fn row_subset(a: &Vec<String>, b: &Vec<String>) -> (r: bool)
    ensures
        r == row_view(*a).to_set().subset_of(row_view(*b).to_set()),
{
    let mut i: usize = 0;
    while i < a.len()
        invariant
            i <= a@.len(),
            forall|j: int| 0 <= j < i ==> row_view(*b).contains(#[trigger] row_view(*a)[j]),
        decreases a.len() - i,
    {
        let mut found = false;
        let mut k: usize = 0;
        while k < b.len()
            invariant
                k <= b@.len(),
                i < a@.len(),
                found == exists|m: int| 0 <= m < k && row_view(*b)[m] == row_view(*a)[i as int],
            decreases b.len() - k,
        {
            assert(row_view(*b)[k as int] == b@[k as int]@);
            assert(row_view(*a)[i as int] == a@[i as int]@);
            if same(b[k].as_str(), a[i].as_str()) {
                found = true;
            }
            k = k + 1;
        }
        if !found {
            proof {
                if row_view(*a).to_set().subset_of(row_view(*b).to_set()) {
                    assert(row_view(*a).to_set().contains(row_view(*a)[i as int]));
                }
            }
            return false;
        }
        i = i + 1;
    }
    assert forall|x: Seq<char>| row_view(*a).to_set().contains(x) implies row_view(
        *b,
    ).to_set().contains(x) by {
        let j = choose|j: int| 0 <= j < row_view(*a).len() && row_view(*a)[j] == x;
        assert(row_view(*b).contains(row_view(*a)[j]));
    }
    true
}

/// Normalise every row (sort, drop repeats), sort and deduplicate the rows,
/// and drop every row that another row is a subset of.
pub fn minimize_rows(rows: Vec<Vec<String>>) -> (r: Vec<Vec<String>>)
    ensures
        rows_view(r@) == minimize(rows_view(rows@)),
{
    let ghost rv = rows_view(rows@);
    let ghost nv = rv.map_values(|r: Row| normal(r));
    let mut canon: Vec<Vec<String>> = Vec::new();
    let mut i: usize = 0;
    assert(rows_view(canon@).to_set() =~= nv.take(0).to_set());
    while i < rows.len()
        invariant
            i <= rows@.len(),
            rv == rows_view(rows@),
            nv == rv.map_values(|r: Row| normal(r)),
            rows_sorted(rows_view(canon@)),
            rows_view(canon@).to_set() == nv.take(i as int).to_set(),
        decreases rows.len() - i,
    {
        let n = normalize_row(&rows[i]);
        insert_row_sorted(&mut canon, n);
        proof {
            assert(nv.take(i + 1) =~= nv.take(i as int).push(nv[i as int]));
            lemma_push_to_set(nv.take(i as int), nv[i as int]);
        }
        i = i + 1;
    }
    proof {
        assert(nv.take(rows@.len() as int) =~= nv);
        lemma_is_sorted_rows(rows_view(canon@));
    }
    let ghost all = rows_view(canon@);
    assert(all == canonical(rv));
    let mut out: Vec<Vec<String>> = Vec::new();
    let mut a: usize = 0;
    while a < canon.len()
        invariant
            a <= canon@.len(),
            all == rows_view(canon@),
            rows_view(out@) == minimal_upto(all, a as int),
        decreases canon.len() - a,
    {
        let mut dominated = false;
        let mut b: usize = 0;
        while b < canon.len()
            invariant
                b <= canon@.len(),
                a < canon@.len(),
                all == rows_view(canon@),
                dominated == exists|j: int|
                    0 <= j < b && j != a && all[j].to_set().subset_of(#[trigger] all[a as int].to_set()),
            decreases canon.len() - b,
        {
            assert(all[b as int] == row_view(canon@[b as int]));
            assert(all[a as int] == row_view(canon@[a as int]));
            if b != a && row_subset(&canon[b], &canon[a]) {
                dominated = true;
            }
            b = b + 1;
        }
        if !dominated {
            let ghost before = out@;
            let c = copy_row(&canon[a]);
            out.push(c);
            assert(rows_view(out@) =~= rows_view(before).push(row_view(c)));
        }
        assert(rows_view(out@) =~= minimal_upto(all, a + 1));
        a = a + 1;
    }
    out
}

// ---------------------------------------------------------------------------
// MOCUS
// ---------------------------------------------------------------------------

/// The largest number of rows a pass may have produced before expanding a
/// further row.
pub const MAX_CUT_SET_ROWS: usize = 100000;

/// Whether `x` names a gate.
pub open spec fn is_gate(gs: Seq<GateEntry>, x: Seq<char>) -> bool {
    gate_entry_ids(gs).contains(x)
}

/// The position of the first gate in `row`, or `row.len()`.
pub open spec fn first_gate(gs: Seq<GateEntry>, row: Row) -> int
    decreases row.len(),
{
    if row.len() == 0 {
        0
    } else if is_gate(gs, row[0]) {
        0
    } else {
        1 + first_gate(gs, row.drop_first())
    }
}

pub proof fn lemma_first_gate_is(gs: Seq<GateEntry>, row: Row, i: int)
    requires
        0 <= i <= row.len(),
        i < row.len() ==> is_gate(gs, row[i]),
        forall|j: int| 0 <= j < i ==> !is_gate(gs, row[j]),
    ensures
        first_gate(gs, row) == i,
    decreases row.len(),
{
    if row.len() > 0 && i > 0 {
        assert forall|j: int| 0 <= j < i - 1 implies !is_gate(gs, row.drop_first()[j]) by {
            assert(row.drop_first()[j] == row[j + 1]);
        }
        lemma_first_gate_is(gs, row.drop_first(), i - 1);
    }
}

/// The first gate named `id`.
pub open spec fn gate_named(gs: Seq<GateEntry>, id: Seq<char>) -> Gate {
    gs[index_of(gate_entry_ids(gs), id)].gate
}

/// `row` with the item at `p` replaced by `items`.
pub open spec fn splice(row: Row, p: int, items: Row) -> Row {
    row.take(p) + items + row.skip(p + 1)
}

/// The rows one expansion step makes of `row`: its first gate replaced by
/// each input (OR), by all inputs (AND, INHIBIT, PRIORITY_AND), or by each
/// `k`-combination of its inputs (VOTING, `k` defaulting to 1). A row
/// without gates stays as it is.
pub open spec fn expand_row(gs: Seq<GateEntry>, row: Row) -> Seq<Row> {
    let p = first_gate(gs, row);
    if p >= row.len() {
        seq![row]
    } else {
        let g = gate_named(gs, row[p]);
        let ins = string_views(g.inputs@);
        match g.gate_type {
            GateType::Or => ins.map_values(|x: Seq<char>| splice(row, p, seq![x])),
            GateType::And => seq![splice(row, p, ins)],
            GateType::Inhibit => seq![splice(row, p, ins)],
            GateType::PriorityAnd => seq![splice(row, p, ins)],
            GateType::Voting => combinations(
                ins,
                match g.k {
                    Some(k) => k as nat,
                    None => 1,
                },
            ).map_values(|c: Row| splice(row, p, c)),
            _ => seq![row],
        }
    }
}

/// One pass over the first `n` rows: the expansions of each, in order;
/// `None` once more than [`MAX_CUT_SET_ROWS`] rows were produced before a
/// row is expanded.
pub open spec fn pass(gs: Seq<GateEntry>, rows: Seq<Row>, n: int) -> Option<Seq<Row>>
    decreases n,
{
    if n <= 0 {
        Some(Seq::empty())
    } else {
        match pass(gs, rows, n - 1) {
            None => None,
            Some(acc) => if acc.len() > MAX_CUT_SET_ROWS {
                None
            } else {
                Some(acc + expand_row(gs, rows[n - 1]))
            },
        }
    }
}

/// Whether one of the first `n` rows still holds a gate.
pub open spec fn has_gate_upto(gs: Seq<GateEntry>, rows: Seq<Row>, n: int) -> bool
    decreases n,
{
    if n <= 0 {
        false
    } else {
        has_gate_upto(gs, rows, n - 1) || first_gate(gs, rows[n - 1]) < rows[n - 1].len()
    }
}

/// The rows MOCUS ends with from `rows`: passes, each followed by
/// minimisation, until a pass finds no gate left; at most `fuel` further
/// passes.
pub open spec fn mocus(gs: Seq<GateEntry>, rows: Seq<Row>, fuel: nat) -> Result<Seq<Row>, Seq<char>>
    decreases fuel,
{
    match pass(gs, rows, rows.len() as int) {
        None => Err(overflow_message()),
        Some(nr) => {
            let m = minimize(nr);
            if !has_gate_upto(gs, rows, rows.len() as int) {
                Ok(m)
            } else if fuel == 0 {
                Err("cut set enumeration did not converge"@)
            } else {
                mocus(gs, m, (fuel - 1) as nat)
            }
        },
    }
}

pub open spec fn overflow_message() -> Seq<char> {
    "cut set enumeration exceeded maximum row count 100000; tree too large"@
}

pub open spec fn non_coherent_message() -> Seq<char> {
    "cannot enumerate cut sets for non-coherent fault tree (contains NOT or XOR gate)"@
}

/// Whether some gate is a NOT or XOR gate.
pub open spec fn has_non_coherent_gate(gs: Seq<GateEntry>) -> bool {
    exists|i: int|
        0 <= i < gs.len() && (#[trigger] gs[i].gate.gate_type == GateType::Not
            || gs[i].gate.gate_type == GateType::Xor)
}

/// The minimal cut sets of `ft`: the root cause alone when there are no
/// gates; an error for a tree with NOT or XOR gates; otherwise what MOCUS
/// ends with from the single row holding the root cause.
pub open spec fn cut_sets(ft: FaultTree) -> Result<Seq<Row>, Seq<char>> {
    let root = seq![ft.top_event.root_cause@];
    match ft.gates {
        None => Ok(seq![root]),
        Some(gs) => if has_non_coherent_gate(gs@) {
            Err(non_coherent_message())
        } else {
            mocus(gs@, seq![root], 0xffff_ffff_ffff_ffffnat)
        },
    }
}

/// The position of the first gate in `row`, or `row.len()`.
fn first_gate_position(gs: &Vec<GateEntry>, row: &Vec<String>) -> (p: usize)
    ensures
        p == first_gate(gs@, row_view(*row)),
        p <= row@.len(),
        p < row@.len() ==> is_gate(gs@, row_view(*row)[p as int]),
{
    let mut i: usize = 0;
    while i < row.len()
        invariant
            i <= row@.len(),
            forall|j: int| 0 <= j < i ==> !is_gate(gs@, row_view(*row)[j]),
        decreases row.len() - i,
    {
        let gi = gate_position(gs, row[i].as_str());
        proof {
            lemma_index_of(gate_entry_ids(gs@), row@[i as int]@);
        }
        if gi < gs.len() {
            proof {
                assert(row_view(*row)[i as int] == row@[i as int]@);
                lemma_first_gate_is(gs@, row_view(*row), i as int);
            }
            return i;
        }
        assert(row_view(*row)[i as int] == row@[i as int]@);
        i = i + 1;
    }
    proof {
        lemma_first_gate_is(gs@, row_view(*row), i as int);
    }
    i
}

/// `row` with the item at `p` replaced by `items`.
fn splice_row(row: &Vec<String>, p: usize, items: &Vec<String>) -> (r: Vec<String>)
    requires
        p < row@.len(),
    ensures
        row_view(r) == splice(row_view(*row), p as int, row_view(*items)),
{
    let ghost rv = row_view(*row);
    let ghost iv = row_view(*items);
    let mut r: Vec<String> = Vec::new();
    let mut i: usize = 0;
    while i < p
        invariant
            i <= p < row@.len(),
            rv == row_view(*row),
            row_view(r) == rv.take(i as int),
        decreases p - i,
    {
        let ghost before = r@;
        let s = owned(row[i].as_str());
        r.push(s);
        assert(string_views(r@) =~= string_views(before).push(s@));
        assert(rv.take(i + 1) =~= rv.take(i as int).push(rv[i as int]));
        i = i + 1;
    }
    let mut j: usize = 0;
    while j < items.len()
        invariant
            j <= items@.len(),
            p < row@.len(),
            iv == row_view(*items),
            row_view(r) == rv.take(p as int) + iv.take(j as int),
        decreases items.len() - j,
    {
        let ghost before = r@;
        let s = owned(items[j].as_str());
        r.push(s);
        assert(string_views(r@) =~= string_views(before).push(s@));
        assert(iv.take(j + 1) =~= iv.take(j as int).push(iv[j as int]));
        assert(row_view(r) =~= rv.take(p as int) + iv.take(j + 1));
        j = j + 1;
    }
    assert(iv.take(items@.len() as int) =~= iv);
    let n = row.len();
    assert(p < n);
    let mut k: usize = p + 1;
    while k < row.len()
        invariant
            p + 1 <= k <= row@.len(),
            rv == row_view(*row),
            row_view(r) == rv.take(p as int) + iv + rv.subrange(p + 1, k as int),
        decreases row.len() - k,
    {
        let ghost before = r@;
        let s = owned(row[k].as_str());
        r.push(s);
        assert(string_views(r@) =~= string_views(before).push(s@));
        assert(rv.subrange(p + 1, k + 1) =~= rv.subrange(p + 1, k as int).push(rv[k as int]));
        assert(row_view(r) =~= rv.take(p as int) + iv + rv.subrange(p + 1, k + 1));
        k = k + 1;
    }
    assert(rv.subrange(p + 1, row@.len() as int) =~= rv.skip(p + 1));
    r
}

/// Append the rows one expansion step makes of `row` to `out`.
fn expand_into(gs: &Vec<GateEntry>, row: &Vec<String>, out: &mut Vec<Vec<String>>) -> (changed: bool)
    ensures
        rows_view(final(out)@) == rows_view(old(out)@) + expand_row(gs@, row_view(*row)),
        changed == (first_gate(gs@, row_view(*row)) < row@.len()),
{
    let ghost rv = row_view(*row);
    let ghost o0 = rows_view(out@);
    let p = first_gate_position(gs, row);
    if p >= row.len() {
        let c = copy_row(row);
        out.push(c);
        assert(rows_view(out@) =~= o0 + expand_row(gs@, rv));
        return false;
    }
    let gi = gate_position(gs, row[p].as_str());
    proof {
        lemma_index_of(gate_entry_ids(gs@), rv[p as int]);
    }
    let gate = &gs[gi].gate;
    assert(*gate == gate_named(gs@, rv[p as int]));
    let ins = &gate.inputs;
    let ghost iv = row_view(*ins);
    match gate.gate_type {
        GateType::Or => {
            let mut i: usize = 0;
            while i < ins.len()
                invariant
                    i <= ins@.len(),
                    p < row@.len(),
                    iv == row_view(*ins),
                    rows_view(out@) == o0 + iv.take(i as int).map_values(
                        |x: Seq<char>| splice(rv, p as int, seq![x]),
                    ),
                    rv == row_view(*row),
                decreases ins.len() - i,
            {
                let mut one: Vec<String> = Vec::new();
                one.push(owned(ins[i].as_str()));
                assert(row_view(one) =~= seq![iv[i as int]]);
                let nr = splice_row(row, p, &one);
                let ghost before = out@;
                out.push(nr);
                assert(rows_view(out@) =~= rows_view(before).push(row_view(nr)));
                assert(iv.take(i + 1) =~= iv.take(i as int).push(iv[i as int]));
                i = i + 1;
            }
            assert(iv.take(ins@.len() as int) =~= iv);
        },
        GateType::And | GateType::Inhibit | GateType::PriorityAnd => {
            let nr = splice_row(row, p, ins);
            out.push(nr);
            assert(rows_view(out@) =~= o0 + seq![splice(rv, p as int, iv)]);
        },
        GateType::Voting => {
            let k: u32 = match gate.k {
                Some(k) => k,
                None => 1,
            };
            let combos = generate_combinations(ins, k as usize);
            let ghost cv = rows_view(combos@);
            let mut i: usize = 0;
            while i < combos.len()
                invariant
                    i <= combos@.len(),
                    p < row@.len(),
                    cv == rows_view(combos@),
                    rows_view(out@) == o0 + cv.take(i as int).map_values(
                        |c: Row| splice(rv, p as int, c),
                    ),
                    rv == row_view(*row),
                decreases combos.len() - i,
            {
                let nr = splice_row(row, p, &combos[i]);
                let ghost before = out@;
                out.push(nr);
                assert(rows_view(out@) =~= rows_view(before).push(row_view(nr)));
                assert(cv.take(i + 1) =~= cv.take(i as int).push(cv[i as int]));
                i = i + 1;
            }
            assert(cv.take(combos@.len() as int) =~= cv);
        },
        _ => {
            let c = copy_row(row);
            out.push(c);
        },
    }
    assert(rows_view(out@) =~= o0 + expand_row(gs@, rv));
    true
}

pub proof fn lemma_pass_stays_none(gs: Seq<GateEntry>, rows: Seq<Row>, i: int, n: int)
    requires
        i <= n,
        pass(gs, rows, i) is None,
    ensures
        pass(gs, rows, n) is None,
    decreases n - i,
{
    if i < n {
        lemma_pass_stays_none(gs, rows, i, n - 1);
    }
}

/// One pass over `rows`: `Some((expanded rows, whether any row held a
/// gate))`, or `None` on too many rows.
fn run_pass(gs: &Vec<GateEntry>, rows: &Vec<Vec<String>>) -> (r: Option<(Vec<Vec<String>>, bool)>)
    ensures
        match r {
            Some((nr, changed)) => pass(gs@, rows_view(rows@), rows@.len() as int) == Some(
                rows_view(nr@),
            ) && changed == has_gate_upto(gs@, rows_view(rows@), rows@.len() as int),
            None => pass(gs@, rows_view(rows@), rows@.len() as int) is None,
        },
{
    let ghost rv = rows_view(rows@);
    let mut out: Vec<Vec<String>> = Vec::new();
    let mut changed = false;
    let mut i: usize = 0;
    assert(rows_view(out@) =~= Seq::<Row>::empty());
    while i < rows.len()
        invariant
            i <= rows@.len(),
            rv == rows_view(rows@),
            pass(gs@, rv, i as int) == Some(rows_view(out@)),
            changed == has_gate_upto(gs@, rv, i as int),
        decreases rows.len() - i,
    {
        if out.len() > MAX_CUT_SET_ROWS {
            proof {
                assert(pass(gs@, rv, i + 1) is None);
                lemma_pass_stays_none(gs@, rv, i + 1, rows@.len() as int);
            }
            return None;
        }
        let c = expand_into(gs, &rows[i], &mut out);
        if c {
            changed = true;
        }
        i = i + 1;
    }
    Some((out, changed))
}

/// Enumerate the minimal cut sets of `ft` with MOCUS: rows start from the
/// root cause; each pass replaces the first gate of every row by its
/// inputs (one row per input for OR, one row for AND/INHIBIT/PRIORITY_AND,
/// one row per `k`-combination for VOTING), then the rows are minimised,
/// until no gate is left. Trees with NOT or XOR gates are refused, and so
/// is a pass that grows beyond [`MAX_CUT_SET_ROWS`] rows.
pub fn enumerate_minimal_cut_sets(ft: &FaultTree) -> (r: Result<Vec<Vec<String>>, String>)
    ensures
        match r {
            Ok(rs) => cut_sets(*ft) == Ok::<Seq<Row>, Seq<char>>(rows_view(rs@)),
            Err(e) => cut_sets(*ft) == Err::<Seq<Row>, Seq<char>>(e@),
        },
{
    let root = ft.top_event.root_cause.as_str();
    let mut first: Vec<String> = Vec::new();
    first.push(owned(root));
    let mut rows: Vec<Vec<String>> = Vec::new();
    rows.push(first);
    let ghost start = seq![seq![root@]];
    assert(rows_view(rows@) =~= start) by {
        assert(row_view(rows@[0]) =~= seq![root@]);
    }
    let gs = match &ft.gates {
        Some(g) => g,
        None => {
            return Ok(rows);
        },
    };
    let mut i: usize = 0;
    while i < gs.len()
        invariant
            i <= gs@.len(),
            ft.gates == Some(*gs),
            forall|j: int|
                0 <= j < i ==> !(#[trigger] gs@[j].gate.gate_type == GateType::Not
                    || gs@[j].gate.gate_type == GateType::Xor),
        decreases gs.len() - i,
    {
        match gs[i].gate.gate_type {
            GateType::Not | GateType::Xor => {
                assert(gs@[i as int].gate.gate_type == GateType::Not || gs@[i as int].gate.gate_type
                    == GateType::Xor);
                assert(has_non_coherent_gate(gs@));
                let msg = owned(
                    "cannot enumerate cut sets for non-coherent fault tree (contains NOT or XOR gate)",
                );
                return Err(msg);
            },
            _ => {},
        }
        i = i + 1;
    }
    let mut fuel: u64 = 0xffff_ffff_ffff_ffff;
    assert(!has_non_coherent_gate(gs@));
    assert(cut_sets(*ft) == mocus(gs@, start, 0xffff_ffff_ffff_ffffnat));
    loop
        invariant
            ft.gates == Some(*gs),
            cut_sets(*ft) == mocus(gs@, start, 0xffff_ffff_ffff_ffffnat),
            mocus(gs@, rows_view(rows@), fuel as nat) == mocus(
                gs@,
                start,
                0xffff_ffff_ffff_ffffnat,
            ),
        decreases fuel,
    {
        match run_pass(gs, &rows) {
            None => {
                assert(mocus(gs@, rows_view(rows@), fuel as nat) == Err::<Seq<Row>, Seq<char>>(overflow_message()));
                return Err(owned("cut set enumeration exceeded maximum row count 100000; tree too large"));
            },
            Some((nr, changed)) => {
                let m = minimize_rows(nr);
                if !changed {
                    assert(mocus(gs@, rows_view(rows@), fuel as nat) == Ok::<Seq<Row>, Seq<char>>(rows_view(m@)));
                    return Ok(m);
                }
                if fuel == 0 {
                    assert(mocus(gs@, rows_view(rows@), fuel as nat) == Err::<Seq<Row>, Seq<char>>("cut set enumeration did not converge"@));
                    return Err(owned("cut set enumeration did not converge"));
                }
                assert(mocus(gs@, rows_view(rows@), fuel as nat) == mocus(gs@, rows_view(m@), (fuel - 1) as nat));
                rows = m;
                fuel = fuel - 1;
            },
        }
    }
}

} // verus!
