//! The sort engine: a stable single-column sort and the rule by which a
//! header click changes the sort directive.
use vstd::prelude::*;

use crate::model::{compare_directed, lemma_order_cmp_antisym, lemma_order_cmp_trans, order_cmp, RowView, SortColumn, SortOrder, TableData};

verus! {

/// The rows that a vector of records holds.
pub open spec fn rows_view(v: Seq<TableData>) -> Seq<RowView> {
    v.map_values(|r: TableData| r@)
}

/// `p` lists each of `0..n` exactly once.
pub open spec fn is_permutation(p: Seq<usize>, n: nat) -> bool {
    &&& p.len() == n
    &&& forall|i: int| 0 <= i < p.len() ==> p[i] < n
    &&& forall|i: int, j: int| 0 <= i < j < p.len() ==> p[i] != p[j]
    &&& forall|k: usize| k < n ==> #[trigger] p.contains(k)
}

/// `p` orders the first `n` rows by the directed comparison, and rows that
/// compare equal keep their relative order.
pub open spec fn sorts_first(rows: Seq<RowView>, c: SortColumn, o: SortOrder, p: Seq<usize>, n: nat) -> bool {
    &&& n <= rows.len()
    &&& is_permutation(p, n)
    &&& forall|i: int, j: int|
        0 <= i < j < p.len() ==> order_cmp(c, o, rows[p[i] as int], rows[p[j] as int]) <= 0
    &&& forall|i: int, j: int|
        0 <= i < j < p.len() && order_cmp(c, o, rows[p[i] as int], rows[p[j] as int]) == 0
            ==> p[i] < p[j]
}

/// `p` is a stable sort of all the rows.
pub open spec fn stably_sorts(rows: Seq<RowView>, c: SortColumn, o: SortOrder, p: Seq<usize>) -> bool {
    sorts_first(rows, c, o, p, rows.len())
}

/// The rows taken in the order that `p` lists their positions.
pub open spec fn arrange(rows: Seq<RowView>, p: Seq<usize>) -> Seq<RowView> {
    p.map_values(|k: usize| rows[k as int])
}

/// The rows as a sort directive shows them: unchanged without a directive,
/// else in the order of the stable sort by its column and direction.
pub open spec fn sorted_rows(rows: Seq<RowView>, directive: Option<(SortColumn, SortOrder)>) -> Seq<
    RowView,
> {
    match directive {
        None => rows,
        Some((c, o)) => arrange(rows, choose|p: Seq<usize>| stably_sorts(rows, c, o, p)),
    }
}

/// The directive after a click on the header of `column`: the same column
/// flips its direction, another column starts ascending.
pub open spec fn next_directive_of(
    current: Option<(SortColumn, SortOrder)>,
    column: SortColumn,
) -> Option<(SortColumn, SortOrder)> {
    if current == Some((column, SortOrder::Ascending)) {
        Some((column, SortOrder::Descending))
    } else {
        Some((column, SortOrder::Ascending))
    }
}

/// Computes the sort directive after a click on the header of `column`.
pub fn next_directive(current: Option<(SortColumn, SortOrder)>, column: SortColumn) -> (r: Option<
    (SortColumn, SortOrder),
>)
    ensures
        r == next_directive_of(current, column),
{
    match current {
        Some((c, SortOrder::Ascending)) => if c == column {
            Some((column, SortOrder::Descending))
        } else {
            Some((column, SortOrder::Ascending))
        },
        _ => Some((column, SortOrder::Ascending)),
    }
}

proof fn lemma_insert_keeps_sorted(
    rows: Seq<RowView>,
    c: SortColumn,
    o: SortOrder,
    p: Seq<usize>,
    i: usize,
    j: int,
)
    requires
        sorts_first(rows, c, o, p, i as nat),
        i < rows.len(),
        0 <= j <= i,
        forall|t: int| 0 <= t < j ==> order_cmp(c, o, rows[p[t] as int], rows[i as int]) <= 0,
        j < i ==> order_cmp(c, o, rows[p[j] as int], rows[i as int]) > 0,
    ensures
        sorts_first(rows, c, o, p.insert(j, i), (i + 1) as nat),
{
    let q = p.insert(j, i);
    assert forall|t: int| 0 <= t < q.len() implies q[t] < i + 1 by {
        if t < j {
            assert(q[t] == p[t]);
        } else if t > j {
            assert(q[t] == p[t - 1]);
        }
    }
    assert forall|a: int, b: int| 0 <= a < b < q.len() implies q[a] != q[b] by {
        if b < j {
        } else if b == j {
            assert(q[a] == p[a]);
        } else if a < j {
            assert(q[a] == p[a] && q[b] == p[b - 1]);
        } else if a == j {
            assert(q[b] == p[b - 1]);
        } else {
            assert(q[a] == p[a - 1] && q[b] == p[b - 1]);
        }
    }
    assert forall|k: usize| k < i + 1 implies #[trigger] q.contains(k) by {
        if k == i {
            assert(q[j] == k);
        } else {
            assert(p.contains(k));
            let t = choose|t: int| 0 <= t < p.len() && p[t] == k;
            if t < j {
                assert(q[t] == k);
            } else {
                assert(q[t + 1] == k);
            }
        }
    }
    assert forall|a: int, b: int| 0 <= a < b < q.len() implies order_cmp(
        c,
        o,
        rows[q[a] as int],
        rows[q[b] as int],
    ) <= 0 && (order_cmp(c, o, rows[q[a] as int], rows[q[b] as int]) == 0 ==> q[a] < q[b]) by {
        if b < j {
        } else if b == j {
            assert(q[a] == p[a]);
        } else if a < j {
            assert(q[a] == p[a] && q[b] == p[b - 1]);
        } else if a == j {
            let y = rows[p[b - 1] as int];
            let x = rows[i as int];
            let z = rows[p[j] as int];
            assert(q[b] == p[b - 1]);
            lemma_order_cmp_antisym(c, o, z, x);
            if b - 1 > j {
                lemma_order_cmp_trans(c, o, x, z, y);
            }
        } else {
            assert(q[a] == p[a - 1] && q[b] == p[b - 1]);
        }
    }
}

/// The positions of the records in the order of a stable sort by `column`
/// in direction `order`.
pub fn sort_order(records: &Vec<TableData>, column: SortColumn, order: SortOrder) -> (p: Vec<usize>)
    ensures
        stably_sorts(rows_view(records@), column, order, p@),
{
    let ghost rows = rows_view(records@);
    let n = records.len();
    let mut p: Vec<usize> = Vec::new();
    let mut i: usize = 0;
    while i < n
        invariant
            n == records.len(),
            rows == rows_view(records@),
            i <= n,
            sorts_first(rows, column, order, p@, i as nat),
        decreases n - i,
    {
        let mut j: usize = 0;
        while j < i && compare_directed(column, order, &records[p[j]], &records[i]) <= 0
            invariant
                n == records.len(),
                rows == rows_view(records@),
                i < n,
                j <= i,
                sorts_first(rows, column, order, p@, i as nat),
                forall|t: int|
                    0 <= t < j ==> order_cmp(column, order, rows[p@[t] as int], rows[i as int]) <= 0,
            decreases i - j,
        {
            j = j + 1;
        }
        proof {
            lemma_insert_keeps_sorted(rows, column, order, p@, i, j as int);
        }
        p.insert(j, i);
        i = i + 1;
    }
    p
}

/// Sorts the records by the directive: a stable sort by its column and
/// direction, or the input order unchanged where there is none.
pub fn sort_rows(records: &Vec<TableData>, directive: Option<(SortColumn, SortOrder)>) -> (r: Vec<
    TableData,
>)
    ensures
        rows_view(r@) == sorted_rows(rows_view(records@), directive),
{
    let ghost rows = rows_view(records@);
    let n = records.len();
    let p: Vec<usize> = match directive {
        Some((c, o)) => sort_order(records, c, o),
        None => {
            let mut id: Vec<usize> = Vec::new();
            let mut k: usize = 0;
            while k < n
                invariant
                    k <= n,
                    id@.len() == k,
                    forall|t: int| 0 <= t < k ==> id@[t] == t,
                decreases n - k,
            {
                id.push(k);
                k = k + 1;
            }
            id
        },
    };
    proof {
        if let Some((c, o)) = directive {
            lemma_stable_sort_unique(rows, c, o, p@, choose|q: Seq<usize>| stably_sorts(rows, c, o, q));
        }
    }
    let mut out: Vec<TableData> = Vec::new();
    let mut t: usize = 0;
    while t < n
        invariant
            n == records.len(),
            rows == rows_view(records@),
            p@.len() == n,
            forall|s: int| 0 <= s < n ==> p@[s] < n,
            t <= n,
            rows_view(out@) =~= arrange(rows, p@).take(t as int),
        decreases n - t,
    {
        let row = records[p[t]].duplicate();
        let ghost old_out = out@;
        proof {
            assert(row@ == rows[p@[t as int] as int]);
            assert(arrange(rows, p@).take(t + 1) =~= arrange(rows, p@).take(t as int).push(row@));
        }
        out.push(row);
        proof {
            assert(rows_view(out@) =~= rows_view(old_out).push(row@));
        }
        t = t + 1;
    }
    proof {
        assert(arrange(rows, p@).take(n as int) =~= arrange(rows, p@));
        if directive is None {
            assert(arrange(rows, p@) =~= rows);
        }
    }
    out
}

/// Two stable sorts of the same rows by the same column and direction list
/// the rows in the same order.
pub proof fn lemma_stable_sort_unique(
    rows: Seq<RowView>,
    c: SortColumn,
    o: SortOrder,
    p1: Seq<usize>,
    p2: Seq<usize>,
)
    requires
        stably_sorts(rows, c, o, p1),
    ensures
        stably_sorts(rows, c, o, p2) ==> p1 == p2,
{
    if stably_sorts(rows, c, o, p2) {
        lemma_agree_from(rows, c, o, p1, p2, 0);
        assert(p1 =~= p2);
    }
}

proof fn lemma_agree_from(
    rows: Seq<RowView>,
    c: SortColumn,
    o: SortOrder,
    p1: Seq<usize>,
    p2: Seq<usize>,
    i: int,
)
    requires
        stably_sorts(rows, c, o, p1),
        stably_sorts(rows, c, o, p2),
        0 <= i <= p1.len(),
        forall|t: int| 0 <= t < i ==> p1[t] == p2[t],
    ensures
        forall|t: int| 0 <= t < p1.len() ==> p1[t] == p2[t],
    decreases p1.len() - i,
{
    if i < p1.len() {
        let a = p1[i];
        let b = p2[i];
        if a != b {
            assert(p1.contains(b));
            assert(p2.contains(a));
            let j = choose|j: int| 0 <= j < p1.len() && p1[j] == b;
            let k = choose|k: int| 0 <= k < p2.len() && p2[k] == a;
            assert(j > i) by {
                if j < i {
                    assert(p2[j] == b);
                }
            }
            assert(k > i) by {
                if k < i {
                    assert(p1[k] == a);
                }
            }
            lemma_order_cmp_antisym(c, o, rows[a as int], rows[b as int]);
            assert(false);
        }
        lemma_agree_from(rows, c, o, p1, p2, i + 1);
    }
}

proof fn lemma_insert_position(
    rows: Seq<RowView>,
    c: SortColumn,
    o: SortOrder,
    p: Seq<usize>,
    i: usize,
    j: int,
) -> (k: int)
    requires
        sorts_first(rows, c, o, p, i as nat),
        i < rows.len(),
        0 <= j <= i,
        forall|t: int| 0 <= t < j ==> order_cmp(c, o, rows[p[t] as int], rows[i as int]) <= 0,
    ensures
        j <= k <= i,
        forall|t: int| 0 <= t < k ==> order_cmp(c, o, rows[p[t] as int], rows[i as int]) <= 0,
        k < i ==> order_cmp(c, o, rows[p[k] as int], rows[i as int]) > 0,
    decreases i - j,
{
    if j < i && order_cmp(c, o, rows[p[j] as int], rows[i as int]) <= 0 {
        lemma_insert_position(rows, c, o, p, i, j + 1)
    } else {
        j
    }
}

proof fn lemma_sorts_first_exists(rows: Seq<RowView>, c: SortColumn, o: SortOrder, n: usize) -> (p:
    Seq<usize>)
    requires
        n <= rows.len(),
    ensures
        sorts_first(rows, c, o, p, n as nat),
    decreases n,
{
    if n == 0 {
        Seq::empty()
    } else {
        let i = (n - 1) as usize;
        let p = lemma_sorts_first_exists(rows, c, o, i);
        let j = lemma_insert_position(rows, c, o, p, i, 0);
        lemma_insert_keeps_sorted(rows, c, o, p, i, j);
        p.insert(j, i)
    }
}

/// Every sequence of rows has a stable sort by every column and direction.
pub proof fn lemma_stable_sort_exists(rows: Seq<RowView>, c: SortColumn, o: SortOrder)
    requires
        rows.len() <= usize::MAX,
    ensures
        exists|p: Seq<usize>| stably_sorts(rows, c, o, p),
{
    let p = lemma_sorts_first_exists(rows, c, o, rows.len() as usize);
    assert(stably_sorts(rows, c, o, p));
}

/// Where the stable sort `p1` puts the rows in ascending order and `p2`
/// then sorts that result in either direction, sorting ascending once more
/// gives back exactly the first ascending order.
proof fn lemma_resort_ascending(
    rows: Seq<RowView>,
    c: SortColumn,
    p1: Seq<usize>,
    o2: SortOrder,
    p2: Seq<usize>,
)
    requires
        rows.len() <= usize::MAX,
        stably_sorts(rows, c, SortOrder::Ascending, p1),
        stably_sorts(arrange(rows, p1), c, o2, p2),
    ensures
        sorted_rows(arrange(arrange(rows, p1), p2), Some((c, SortOrder::Ascending))) == arrange(
            rows,
            p1,
        ),
{
    let s1 = arrange(rows, p1);
    let s2 = arrange(s1, p2);
    let n = s1.len();
    let q = Seq::new(n, |a: int| choose|x: int| 0 <= x < p2.len() && p2[x] == a as usize);
    assert forall|a: int| 0 <= a < n implies 0 <= #[trigger] q[a] < n && p2[q[a]] == a by {
        assert(p2.contains(a as usize));
        assert(q[a] == choose|x: int| 0 <= x < p2.len() && p2[x] == a as usize);
    }
    let qu = q.map_values(|x: int| x as usize);
    assert forall|x: int| 0 <= x < n implies #[trigger] q[p2[x] as int] == x by {
        let y = q[p2[x] as int];
        assert(p2[y] == p2[x]);
    }
    assert forall|k: usize| k < n implies #[trigger] qu.contains(k) by {
        assert(qu[p2[k as int] as int] == k);
    }
    assert forall|a: int, b: int| 0 <= a < b < qu.len() implies qu[a] != qu[b] by {
        assert(p2[q[a]] == a && p2[q[b]] == b);
        assert(qu[a] == q[a] && qu[b] == q[b]);
    }
    assert forall|a: int, b: int| 0 <= a < b < qu.len() implies order_cmp(
        c,
        SortOrder::Ascending,
        s2[qu[a] as int],
        s2[qu[b] as int],
    ) <= 0 && (order_cmp(c, SortOrder::Ascending, s2[qu[a] as int], s2[qu[b] as int]) == 0
        ==> qu[a] < qu[b]) by {
        assert(s2[qu[a] as int] == s1[a] && s2[qu[b] as int] == s1[b]);
        if order_cmp(c, SortOrder::Ascending, s1[a], s1[b]) == 0 && qu[a] > qu[b] {
            lemma_order_cmp_antisym(c, SortOrder::Ascending, s1[b], s1[a]);
            lemma_order_cmp_antisym(c, o2, s1[b], s1[a]);
            assert(p2[qu[b] as int] == b && p2[qu[a] as int] == a);
        }
    }
    assert(stably_sorts(s2, c, SortOrder::Ascending, qu));
    assert(arrange(s2, qu) =~= s1);
    let chosen = choose|p: Seq<usize>| stably_sorts(s2, c, SortOrder::Ascending, p);
    lemma_stable_sort_unique(s2, c, SortOrder::Ascending, qu, chosen);
}

/// Stability: clicking the header of a column three times (ascending,
/// descending, ascending again) comes back to the first directive, and
/// whether each sort starts from the records or from the rows shown just
/// before, the rows come back in exactly the first ascending order.
pub proof fn lemma_toggle_twice_restores(rows: Seq<RowView>, c: SortColumn)
    requires
        rows.len() <= usize::MAX,
    ensures
        ({
            let d1 = Some((c, SortOrder::Ascending));
            let d2 = next_directive_of(d1, c);
            let d3 = next_directive_of(d2, c);
            &&& d3 == d1
            &&& sorted_rows(rows, d3) == sorted_rows(rows, d1)
            &&& sorted_rows(sorted_rows(sorted_rows(rows, d1), d2), d3) == sorted_rows(rows, d1)
        }),
{
    let d1 = Some((c, SortOrder::Ascending));
    let d2 = next_directive_of(d1, c);
    assert(d2 == Some((c, SortOrder::Descending)));
    lemma_stable_sort_exists(rows, c, SortOrder::Ascending);
    let p1 = choose|p: Seq<usize>| stably_sorts(rows, c, SortOrder::Ascending, p);
    let s1 = arrange(rows, p1);
    lemma_stable_sort_exists(s1, c, SortOrder::Descending);
    let p2 = choose|p: Seq<usize>| stably_sorts(s1, c, SortOrder::Descending, p);
    lemma_resort_ascending(rows, c, p1, SortOrder::Descending, p2);
}

} // verus!
