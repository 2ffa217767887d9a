//! The order of a listing: which key is active, how two rows stand under it,
//! and the one arrangement of the rows that it fixes.

use crate::entry::Timestamp;
use crate::text::{
    bytes_lt, compare_text, lemma_bytes_lt_asymmetric, lemma_bytes_lt_total,
    lemma_bytes_lt_transitive, text_lt, Rank,
};
use vstd::prelude::*;
use vstd::utf8::encode_utf8;

verus! {

/// The key that a listing is ordered by.
#[derive(Clone, Copy, Debug, PartialEq, Eq, Structural)]
pub enum SortKey {
    /// No key: the rows stay as they were enumerated.
    Enumeration,
    /// The name, ascending unless reversed.
    Name,
    /// The modification time, newest first unless reversed.
    Time,
    /// The size in bytes, largest first unless reversed.
    Size,
}

/// The active order of a listing: its key and whether the direction is flipped.
#[derive(Clone, Copy, Debug, PartialEq, Eq, Structural)]
pub struct SortOrder {
    pub key: SortKey,
    pub reverse: bool,
}

/// The order that the four sorting flags select: none where `unsorted` is set,
/// else by time where `sort_time` is set, else by size where `sort_size` is
/// set, else by name; `reverse` flips the direction and leaves the key alone.
pub open spec fn active_order(sort_time: bool, sort_size: bool, reverse: bool, unsorted: bool)
    -> SortOrder {
    SortOrder {
        key: if unsorted {
            SortKey::Enumeration
        } else if sort_time {
            SortKey::Time
        } else if sort_size {
            SortKey::Size
        } else {
            SortKey::Name
        },
        reverse,
    }
}

/// Selects the active order from the four sorting flags.
pub fn select_order(sort_time: bool, sort_size: bool, reverse: bool, unsorted: bool) -> (order:
    SortOrder)
    ensures
        order == active_order(sort_time, sort_size, reverse, unsorted),
{
    let key: SortKey = if unsorted {
        SortKey::Enumeration
    } else if sort_time {
        SortKey::Time
    } else if sort_size {
        SortKey::Size
    } else {
        SortKey::Name
    };
    SortOrder { key, reverse }
}

/// What a row is ordered by, as plain values.
pub ghost struct RowKey {
    pub name: Seq<char>,
    pub size: int,
    pub instant: int,
}

/// One row of a listing with the three values it can be ordered by.
#[derive(Clone, Debug)]
pub struct SortRow {
    /// The name as the listing shows it.
    pub name: String,
    /// The size in bytes.
    pub size: u64,
    /// The modification time.
    pub modified: Timestamp,
}

impl View for SortRow {
    type V = RowKey;

    open spec fn view(&self) -> RowKey {
        RowKey { name: self.name@, size: self.size as int, instant: self.modified@ }
    }
}

/// The keys of a sequence of rows.
pub open spec fn keys_of(rows: Seq<SortRow>) -> Seq<RowKey> {
    Seq::new(rows.len(), |i: int| rows[i]@)
}

/// Whether `a` has to stand before `b` under `order` on account of the key.
/// By name the smaller text goes first; by time the later instant; by size
/// the larger size; a reversed order swaps the two. Without a key no row has
/// to stand before another.
pub open spec fn precedes(a: RowKey, b: RowKey, order: SortOrder) -> bool {
    match order.key {
        SortKey::Enumeration => false,
        SortKey::Name => if order.reverse {
            text_lt(b.name, a.name)
        } else {
            text_lt(a.name, b.name)
        },
        SortKey::Time => if order.reverse {
            a.instant < b.instant
        } else {
            b.instant < a.instant
        },
        SortKey::Size => if order.reverse {
            a.size < b.size
        } else {
            b.size < a.size
        },
    }
}

/// Neither of the two rows has to stand before the other.
pub open spec fn tied(a: RowKey, b: RowKey, order: SortOrder) -> bool {
    !precedes(a, b, order) && !precedes(b, a, order)
}

/// `precedes` is a strict weak order: it is asymmetric and transitive, and
/// being tied is transitive and compatible with it.
pub proof fn lemma_precedes_weak_order(a: RowKey, b: RowKey, c: RowKey, order: SortOrder)
    ensures
        !(precedes(a, b, order) && precedes(b, a, order)),
        precedes(a, b, order) && precedes(b, c, order) ==> precedes(a, c, order),
        precedes(a, b, order) && tied(b, c, order) ==> precedes(a, c, order),
        tied(a, b, order) && precedes(b, c, order) ==> precedes(a, c, order),
        tied(a, b, order) && tied(b, c, order) ==> tied(a, c, order),
{
    if order.key == SortKey::Name {
        let x = encode_utf8(a.name);
        let y = encode_utf8(b.name);
        let z = encode_utf8(c.name);
        lemma_bytes_lt_asymmetric(x, y);
        lemma_bytes_lt_asymmetric(y, x);
        lemma_bytes_lt_asymmetric(x, z);
        lemma_bytes_lt_asymmetric(z, x);
        lemma_bytes_lt_asymmetric(y, z);
        lemma_bytes_lt_asymmetric(z, y);
        lemma_bytes_lt_total(x, y);
        lemma_bytes_lt_total(y, z);
        lemma_bytes_lt_total(x, z);
        if bytes_lt(x, y) && bytes_lt(y, z) {
            lemma_bytes_lt_transitive(x, y, z);
        }
        if bytes_lt(z, y) && bytes_lt(y, x) {
            lemma_bytes_lt_transitive(z, y, x);
        }
    }
}

/// Whether the row at index `i` stands before the row at index `j`: where the
/// key decides, by the key; where the two are tied, the one enumerated first.
pub open spec fn ranks_before(keys: Seq<RowKey>, order: SortOrder, i: int, j: int) -> bool {
    precedes(keys[i], keys[j], order) || (tied(keys[i], keys[j], order) && i < j)
}

/// `ranks_before` orders the indices strictly and totally.
pub proof fn lemma_ranks_before_total_order(
    keys: Seq<RowKey>,
    order: SortOrder,
    i: int,
    j: int,
    k: int,
)
    ensures
        !(ranks_before(keys, order, i, j) && ranks_before(keys, order, j, i)),
        i != j ==> ranks_before(keys, order, i, j) || ranks_before(keys, order, j, i),
        ranks_before(keys, order, i, j) && ranks_before(keys, order, j, k) ==> ranks_before(
            keys,
            order,
            i,
            k,
        ),
{
    lemma_precedes_weak_order(keys[i], keys[j], keys[k], order);
    lemma_precedes_weak_order(keys[j], keys[i], keys[k], order);
    lemma_precedes_weak_order(keys[i], keys[k], keys[j], order);
}

/// Compares two rows by the key of `order`.
pub fn compare_rows(a: &SortRow, b: &SortRow, order: SortOrder) -> (r: Rank)
    ensures
        r == Rank::Before <==> precedes(a@, b@, order),
        r == Rank::After <==> precedes(b@, a@, order),
        r == Rank::Tied <==> tied(a@, b@, order),
{
    proof {
        lemma_precedes_weak_order(a@, b@, a@, order);
    }
    let forward: Rank = match order.key {
        SortKey::Enumeration => Rank::Tied,
        SortKey::Name => compare_text(a.name.as_str(), b.name.as_str()),
        SortKey::Time => if b.modified.is_before(&a.modified) {
            Rank::Before
        } else if a.modified.is_before(&b.modified) {
            Rank::After
        } else {
            Rank::Tied
        },
        SortKey::Size => if b.size < a.size {
            Rank::Before
        } else if a.size < b.size {
            Rank::After
        } else {
            Rank::Tied
        },
    };
    if order.reverse {
        match forward {
            Rank::Before => Rank::After,
            Rank::Tied => Rank::Tied,
            Rank::After => Rank::Before,
        }
    } else {
        forward
    }
}

/// `run` holds each index from `lo` up to `hi` once, every one standing before
/// those that follow it.
pub open spec fn is_run(run: Seq<int>, keys: Seq<RowKey>, order: SortOrder, lo: int, hi: int)
    -> bool {
    &&& run.len() == hi - lo
    &&& forall|i: int| 0 <= i < run.len() ==> lo <= #[trigger] run[i] < hi
    &&& forall|k: int| lo <= k < hi ==> #[trigger] run.contains(k)
    &&& forall|i: int, j: int|
        0 <= i < j < run.len() ==> ranks_before(keys, order, #[trigger] run[i], #[trigger] run[j])
}

/// `perm` arranges the rows under `order`: it holds the index of every row
/// once, and each row stands before those that follow it.
pub open spec fn is_arrangement(perm: Seq<int>, keys: Seq<RowKey>, order: SortOrder) -> bool {
    is_run(perm, keys, order, 0, keys.len() as int)
}

/// The arrangement of the rows under `order`, as the indices of the rows in
/// the order in which the listing shows them.
pub open spec fn arrangement(keys: Seq<RowKey>, order: SortOrder) -> Seq<int> {
    choose|perm: Seq<int>| is_arrangement(perm, keys, order)
}

/// The indices that a vector of positions holds.
pub open spec fn indices_of(perm: Seq<usize>) -> Seq<int> {
    Seq::new(perm.len(), |i: int| perm[i] as int)
}

proof fn lemma_runs_agree(
    p: Seq<int>,
    q: Seq<int>,
    keys: Seq<RowKey>,
    order: SortOrder,
    lo: int,
    hi: int,
    n: int,
)
    requires
        is_run(p, keys, order, lo, hi),
        is_run(q, keys, order, lo, hi),
        0 <= n <= hi - lo,
    ensures
        forall|i: int| 0 <= i < n ==> p[i] == q[i],
    decreases n,
{
    if n > 0 {
        lemma_runs_agree(p, q, keys, order, lo, hi, n - 1);
        let i = n - 1;
        let k = p[i];
        let m = q[i];
        assert(q.contains(k));
        let j = choose|j: int| 0 <= j < q.len() && q[j] == k;
        assert(p.contains(m));
        let l = choose|l: int| 0 <= l < p.len() && p[l] == m;
        lemma_ranks_before_total_order(keys, order, k, m, k);
        if j < i {
            assert(p[j] == q[j]);
        } else if j > i {
            if l < i {
                assert(p[l] == q[l]);
            } else if l > i {
                assert(ranks_before(keys, order, p[i], p[l]));
            }
        }
    }
}

/// Two arrangements of the same rows under the same order are the same.
pub proof fn lemma_arrangement_unique(
    p: Seq<int>,
    q: Seq<int>,
    keys: Seq<RowKey>,
    order: SortOrder,
)
    requires
        is_arrangement(p, keys, order),
        is_arrangement(q, keys, order),
    ensures
        p == q,
{
    lemma_runs_agree(p, q, keys, order, 0, keys.len() as int, keys.len() as int);
}

/// An arrangement holds no index twice.
pub proof fn lemma_arrangement_distinct(perm: Seq<int>, keys: Seq<RowKey>, order: SortOrder)
    requires
        is_arrangement(perm, keys, order),
    ensures
        forall|i: int, j: int|
            0 <= i < j < perm.len() ==> #[trigger] perm[i] != #[trigger] perm[j],
{
    assert forall|i: int, j: int| 0 <= i < j < perm.len() implies #[trigger] perm[i]
        != #[trigger] perm[j] by {
        lemma_ranks_before_total_order(keys, order, perm[i], perm[j], perm[i]);
    }
}

/// Values picked at the places that `perm` names, where `perm` names each
/// place of `vals` once, are the values of `vals`, each as often as there.
pub proof fn lemma_picked_values_are_the_same<A>(vals: Seq<A>, perm: Seq<int>)
    requires
        perm.len() == vals.len(),
        forall|i: int| 0 <= i < perm.len() ==> 0 <= #[trigger] perm[i] < vals.len(),
        forall|i: int, j: int|
            0 <= i < j < perm.len() ==> #[trigger] perm[i] != #[trigger] perm[j],
    ensures
        Seq::new(vals.len(), |i: int| vals[perm[i]]).to_multiset() == vals.to_multiset(),
    decreases vals.len(),
{
    let n = vals.len() as int;
    let out = Seq::new(vals.len(), |i: int| vals[perm[i]]);
    if n == 0 {
        assert(out =~= vals);
    } else {
        let r = perm[n - 1];
        let rest = vals.remove(r);
        let shifted = Seq::new(
            (n - 1) as nat,
            |i: int|
                if perm[i] > r {
                    perm[i] - 1
                } else {
                    perm[i]
                },
        );
        assert forall|i: int| 0 <= i < shifted.len() implies 0 <= #[trigger] shifted[i]
            < rest.len() by {
            assert(perm[i] != perm[n - 1]);
        }
        assert forall|i: int, j: int| 0 <= i < j < shifted.len() implies #[trigger] shifted[i]
            != #[trigger] shifted[j] by {
            assert(perm[i] != perm[j]);
        }
        lemma_picked_values_are_the_same(rest, shifted);
        let head = Seq::new(rest.len(), |i: int| rest[shifted[i]]);
        assert(head =~= out.drop_last()) by {
            assert forall|i: int| 0 <= i < head.len() implies head[i] == out.drop_last()[i] by {
                assert(perm[i] != perm[n - 1]);
            }
        }
        assert(out =~= out.drop_last().push(vals[r]));
        vstd::seq_lib::to_multiset_build(out.drop_last(), vals[r]);
        vstd::seq_lib::to_multiset_remove(vals, r);
        vstd::seq_lib::to_multiset_contains(vals, vals[r]);
    }
}

/// The first place at or after `from` whose index has to stand after `x`, or
/// the length of `run` where there is none.
spec fn place_for(run: Seq<int>, keys: Seq<RowKey>, order: SortOrder, x: int, from: int) -> int
    decreases run.len() - from,
{
    if from < 0 || from >= run.len() {
        run.len() as int
    } else if ranks_before(keys, order, x, run[from]) {
        from
    } else {
        place_for(run, keys, order, x, from + 1)
    }
}

proof fn lemma_place_for(run: Seq<int>, keys: Seq<RowKey>, order: SortOrder, x: int, from: int)
    requires
        0 <= from <= run.len(),
    ensures
        from <= place_for(run, keys, order, x, from) <= run.len(),
        forall|t: int|
            from <= t < place_for(run, keys, order, x, from) ==> !ranks_before(
                keys,
                order,
                x,
                #[trigger] run[t],
            ),
        place_for(run, keys, order, x, from) < run.len() ==> ranks_before(
            keys,
            order,
            x,
            run[place_for(run, keys, order, x, from)],
        ),
    decreases run.len() - from,
{
    if from < run.len() && !ranks_before(keys, order, x, run[from]) {
        lemma_place_for(run, keys, order, x, from + 1);
    }
}

proof fn lemma_run_exists(keys: Seq<RowKey>, order: SortOrder, n: int)
    requires
        0 <= n <= keys.len(),
    ensures
        exists|run: Seq<int>| is_run(run, keys, order, 0, n),
    decreases n,
{
    if n == 0 {
        assert(is_run(Seq::<int>::empty(), keys, order, 0, 0));
    } else {
        let x = n - 1;
        lemma_run_exists(keys, order, x);
        let p = choose|run: Seq<int>| is_run(run, keys, order, 0, x);
        let pos = place_for(p, keys, order, x, 0);
        lemma_place_for(p, keys, order, x, 0);
        let q = p.insert(pos, x);
        assert forall|i: int, j: int| 0 <= i < j < q.len() implies ranks_before(
            keys,
            order,
            #[trigger] q[i],
            #[trigger] q[j],
        ) by {
            if j < pos {
                assert(q[i] == p[i] && q[j] == p[j]);
            } else if j == pos {
                lemma_ranks_before_total_order(keys, order, p[i], x, x);
            } else if i < pos {
                assert(q[i] == p[i] && q[j] == p[j - 1]);
            } else if i == pos {
                if j - 1 > pos {
                    lemma_ranks_before_total_order(keys, order, x, p[pos], p[j - 1]);
                }
            } else {
                assert(q[i] == p[i - 1] && q[j] == p[j - 1]);
            }
        }
        assert forall|k: int| 0 <= k < n implies #[trigger] q.contains(k) by {
            if k == x {
                assert(q[pos] == k);
            } else {
                assert(p.contains(k));
                let w = choose|w: int| 0 <= w < p.len() && p[w] == k;
                if w < pos {
                    assert(q[w] == k);
                } else {
                    assert(q[w + 1] == k);
                }
            }
        }
        assert forall|i: int| 0 <= i < q.len() implies 0 <= #[trigger] q[i] < n by {
            if i < pos {
                assert(q[i] == p[i]);
            } else if i > pos {
                assert(q[i] == p[i - 1]);
            }
        }
        assert(is_run(q, keys, order, 0, n));
    }
}

/// Every sequence of rows has an arrangement under every order, and
/// `arrangement` names it.
pub proof fn lemma_arrangement_exists(keys: Seq<RowKey>, order: SortOrder)
    ensures
        is_arrangement(arrangement(keys, order), keys, order),
{
    let n = keys.len() as int;
    lemma_run_exists(keys, order, n);
    let run = choose|run: Seq<int>| is_run(run, keys, order, 0, n);
    assert(is_arrangement(run, keys, order));
}

/// Whatever arranges the rows under `order` is the arrangement.
pub proof fn lemma_arrangement_is(perm: Seq<int>, keys: Seq<RowKey>, order: SortOrder)
    requires
        is_arrangement(perm, keys, order),
    ensures
        arrangement(keys, order) == perm,
{
    lemma_arrangement_exists(keys, order);
    lemma_arrangement_unique(perm, arrangement(keys, order), keys, order);
}

/// Whether the row at index `i` stands before the row at index `j`.
fn stands_before(rows: &Vec<SortRow>, order: SortOrder, i: usize, j: usize) -> (r: bool)
    requires
        i < rows.len(),
        j < rows.len(),
    ensures
        r == ranks_before(keys_of(rows@), order, i as int, j as int),
{
    match compare_rows(&rows[i], &rows[j], order) {
        Rank::Before => true,
        Rank::Tied => i < j,
        Rank::After => false,
    }
}

/// Merges the run of the indices from `lo` up to `mid` with the run of the
/// indices from `mid` up to `hi`.
fn merge_runs(
    rows: &Vec<SortRow>,
    order: SortOrder,
    left: &Vec<usize>,
    right: &Vec<usize>,
    Ghost(lo): Ghost<int>,
    Ghost(mid): Ghost<int>,
    Ghost(hi): Ghost<int>,
) -> (run: Vec<usize>)
    requires
        0 <= lo <= mid <= hi <= rows.len(),
        is_run(indices_of(left@), keys_of(rows@), order, lo, mid),
        is_run(indices_of(right@), keys_of(rows@), order, mid, hi),
    ensures
        is_run(indices_of(run@), keys_of(rows@), order, lo, hi),
{
    let ghost keys = keys_of(rows@);
    let ghost l = indices_of(left@);
    let ghost r = indices_of(right@);
    let mut out: Vec<usize> = Vec::new();
    let mut i: usize = 0;
    let mut j: usize = 0;
    while i < left.len() || j < right.len()
        invariant
            0 <= lo <= mid <= hi <= rows.len(),
            keys == keys_of(rows@),
            l == indices_of(left@),
            r == indices_of(right@),
            is_run(l, keys, order, lo, mid),
            is_run(r, keys, order, mid, hi),
            i <= left.len(),
            j <= right.len(),
            out.len() == i + j,
            forall|a: int| 0 <= a < out.len() ==> lo <= #[trigger] out[a] < hi,
            forall|t: int| 0 <= t < i ==> indices_of(out@).contains(#[trigger] l[t]),
            forall|t: int| 0 <= t < j ==> indices_of(out@).contains(#[trigger] r[t]),
            forall|a: int, b: int|
                0 <= a < b < out.len() ==> ranks_before(
                    keys,
                    order,
                    #[trigger] out[a] as int,
                    #[trigger] out[b] as int,
                ),
            forall|a: int, t: int|
                0 <= a < out.len() && i <= t < left.len() ==> ranks_before(
                    keys,
                    order,
                    #[trigger] out[a] as int,
                    #[trigger] l[t],
                ),
            forall|a: int, t: int|
                0 <= a < out.len() && j <= t < right.len() ==> ranks_before(
                    keys,
                    order,
                    #[trigger] out[a] as int,
                    #[trigger] r[t],
                ),
        decreases left.len() - i + right.len() - j,
    {
        let ghost before = indices_of(out@);
        let take_left: bool = if j == right.len() {
            true
        } else if i == left.len() {
            false
        } else {
            assert(lo <= l[i as int] < mid && mid <= r[j as int] < hi);
            stands_before(rows, order, left[i], right[j])
        };
        if take_left {
            let x: usize = left[i];
            out.push(x);
            let ghost after = indices_of(out@);
            assert forall|a: int, t: int|
                0 <= a < out.len() && j <= t < right.len() implies ranks_before(
                keys,
                order,
                #[trigger] out[a] as int,
                #[trigger] r[t],
            ) by {
                if a == out.len() - 1 && t > j {
                    lemma_ranks_before_total_order(keys, order, x as int, r[j as int], r[t]);
                }
            }
            assert forall|t: int| 0 <= t < i + 1 implies after.contains(#[trigger] l[t]) by {
                if t < i {
                    let w = choose|w: int| 0 <= w < before.len() && before[w] == l[t];
                    assert(after[w] == l[t]);
                } else {
                    assert(after[out.len() - 1] == l[t]);
                }
            }
            assert forall|t: int| 0 <= t < j implies after.contains(#[trigger] r[t]) by {
                let w = choose|w: int| 0 <= w < before.len() && before[w] == r[t];
                assert(after[w] == r[t]);
            }
            i += 1;
        } else {
            let x: usize = right[j];
            assert(x as int == r[j as int]);
            out.push(x);
            let ghost after = indices_of(out@);
            assert forall|a: int, t: int|
                0 <= a < out.len() && i <= t < left.len() implies ranks_before(
                keys,
                order,
                #[trigger] out[a] as int,
                #[trigger] l[t],
            ) by {
                if a == out.len() - 1 {
                    lemma_ranks_before_total_order(keys, order, l[i as int], x as int, x as int);
                    if t > i {
                        lemma_ranks_before_total_order(keys, order, x as int, l[i as int], l[t]);
                    }
                }
            }
            assert forall|t: int| 0 <= t < i implies after.contains(#[trigger] l[t]) by {
                let w = choose|w: int| 0 <= w < before.len() && before[w] == l[t];
                assert(after[w] == l[t]);
            }
            assert forall|t: int| 0 <= t < j + 1 implies after.contains(#[trigger] r[t]) by {
                if t < j {
                    let w = choose|w: int| 0 <= w < before.len() && before[w] == r[t];
                    assert(after[w] == r[t]);
                } else {
                    assert(after[out.len() - 1] == r[t]);
                }
            }
            j += 1;
        }
    }
    proof {
        let run = indices_of(out@);
        assert forall|k: int| lo <= k < hi implies #[trigger] run.contains(k) by {
            if k < mid {
                assert(l.contains(k));
                let t = choose|t: int| 0 <= t < l.len() && l[t] == k;
                assert(run.contains(l[t]));
            } else {
                assert(r.contains(k));
                let t = choose|t: int| 0 <= t < r.len() && r[t] == k;
                assert(run.contains(r[t]));
            }
        }
        assert forall|a: int, b: int| 0 <= a < b < run.len() implies ranks_before(
            keys,
            order,
            #[trigger] run[a],
            #[trigger] run[b],
        ) by {
            assert(ranks_before(keys, order, out[a] as int, out[b] as int));
        }
        assert forall|a: int| 0 <= a < run.len() implies lo <= #[trigger] run[a] < hi by {
            assert(lo <= out[a] < hi);
        }
    }
    out
}

/// Arranges the rows with an index from `lo` up to `hi` by merging the
/// arrangements of the two halves.
fn sort_span(rows: &Vec<SortRow>, order: SortOrder, lo: usize, hi: usize) -> (run: Vec<usize>)
    requires
        lo <= hi <= rows.len(),
    ensures
        is_run(indices_of(run@), keys_of(rows@), order, lo as int, hi as int),
    decreases hi - lo,
{
    if hi - lo < 2 {
        let mut run: Vec<usize> = Vec::new();
        if hi - lo == 1 {
            run.push(lo);
            assert(indices_of(run@)[0] == lo);
        }
        run
    } else {
        let mid: usize = lo + (hi - lo) / 2;
        let left: Vec<usize> = sort_span(rows, order, lo, mid);
        let right: Vec<usize> = sort_span(rows, order, mid, hi);
        merge_runs(rows, order, &left, &right, Ghost(lo as int), Ghost(mid as int), Ghost(hi as int))
    }
}

/// Arranges the rows under `order`: the result holds the index of every row
/// once, in the order in which the listing shows the rows. Rows that the key
/// does not tell apart keep the order in which they were enumerated.
pub fn arrange(rows: &Vec<SortRow>, order: SortOrder) -> (perm: Vec<usize>)
    ensures
        indices_of(perm@) == arrangement(keys_of(rows@), order),
        is_arrangement(indices_of(perm@), keys_of(rows@), order),
{
    let perm: Vec<usize> = sort_span(rows, order, 0, rows.len());
    proof {
        lemma_arrangement_is(indices_of(perm@), keys_of(rows@), order);
    }
    perm
}

} // verus!
