//! The view derivation pipeline (sort, then filter) and the distinct
//! values that populate a column's filter checklist.
use vstd::prelude::*;

use crate::filter::{filter_rows, kept, set_of, value_of, FilterModel, FilterStates};
use crate::model::{RowView, SortColumn, SortOrder, TableData};
use crate::sort::{arrange, rows_view, sort_rows, sorted_rows, stably_sorts, lemma_stable_sort_unique};
use crate::text::{compare_text, decimal_text, lemma_lex_cmp_antisym, lemma_lex_cmp_eq, lemma_lex_cmp_trans, lex_cmp};

verus! {

/// The rows that are rendered: the records sorted by the directive, then
/// filtered.
pub open spec fn derived(
    rows: Seq<RowView>,
    directive: Option<(SortColumn, SortOrder)>,
    m: FilterModel,
) -> Seq<RowView> {
    kept(sorted_rows(rows, directive), m)
}

/// Derives the rendered rows from a snapshot of the records, the sort
/// directive and the filter states: sort first, then filter, so that
/// filtering never reorders.
pub fn derive_view(
    records: &Vec<TableData>,
    directive: Option<(SortColumn, SortOrder)>,
    filters: &FilterStates,
) -> (r: Vec<TableData>)
    ensures
        rows_view(r@) == derived(rows_view(records@), directive, filters@),
{
    let sorted = sort_rows(records, directive);
    filter_rows(&sorted, filters)
}

/// The derivation has one answer: whichever stable sort puts the rows in
/// order, the rendered rows are the same.
pub proof fn lemma_derivation_deterministic(
    rows: Seq<RowView>,
    c: SortColumn,
    o: SortOrder,
    m: FilterModel,
    p1: Seq<usize>,
    p2: Seq<usize>,
)
    requires
        stably_sorts(rows, c, o, p1),
        stably_sorts(rows, c, o, p2),
    ensures
        kept(arrange(rows, p1), m) == kept(arrange(rows, p2), m),
        kept(arrange(rows, p1), m) == derived(rows, Some((c, o)), m),
{
    lemma_stable_sort_unique(rows, c, o, p1, p2);
    lemma_stable_sort_unique(rows, c, o, p1, choose|q: Seq<usize>| stably_sorts(rows, c, o, q));
}

/// The values of a column across the rows.
pub open spec fn column_values(rows: Seq<RowView>, c: SortColumn) -> Set<Seq<char>> {
    Set::new(|v: Seq<char>| exists|i: int| 0 <= i < rows.len() && value_of(c, rows[i]) == v)
}

/// Strictly increasing in lexical order, hence without repeats.
pub open spec fn strictly_sorted(v: Seq<String>) -> bool {
    forall|a: int, b: int| 0 <= a < b < v.len() ==> lex_cmp(v[a]@, v[b]@) < 0
}

/// The value of a row that the filter of `column` looks at, as text.
pub fn value_text(column: SortColumn, row: &TableData) -> (r: String)
    ensures
        r@ == value_of(column, row@),
{
    match column {
        SortColumn::Id => decimal_text(row.id),
        SortColumn::Name => row.name.clone(),
        SortColumn::Email => row.email.clone(),
        SortColumn::Role => row.role.clone(),
        SortColumn::DateTime => row.created_at.clone(),
    }
}

fn insert_sorted(v: &mut Vec<String>, x: String)
    requires
        strictly_sorted(old(v)@),
    ensures
        strictly_sorted(final(v)@),
        set_of(final(v)@) == set_of(old(v)@).insert(x@),
{
    let mut j: usize = 0;
    while j < v.len() && compare_text(v[j].as_str(), x.as_str()) < 0
        invariant
            j <= v@.len(),
            v@ == old(v)@,
            forall|t: int| 0 <= t < j ==> lex_cmp(v@[t]@, x@) < 0,
        decreases v@.len() - j,
    {
        j = j + 1;
    }
    if j < v.len() && compare_text(v[j].as_str(), x.as_str()) == 0 {
        proof {
            lemma_lex_cmp_eq(v@[j as int]@, x@);
            assert(set_of(v@) =~= set_of(old(v)@).insert(x@));
        }
        return;
    }
    let ghost xv = x@;
    let ghost w = v@;
    v.insert(j, x);
    proof {
        let q = v@;
        assert(q == w.insert(j as int, q[j as int]));
        assert forall|a: int, b: int| 0 <= a < b < q.len() implies lex_cmp(q[a]@, q[b]@) < 0 by {
            if b < j {
            } else if b == j {
                assert(q[a] == w[a]);
            } else if a < j {
                assert(q[a] == w[a] && q[b] == w[b - 1]);
            } else if a == j {
                assert(q[b] == w[b - 1]);
                lemma_lex_cmp_antisym(w[j as int]@, xv);
                if b - 1 > j {
                    lemma_lex_cmp_trans(xv, w[j as int]@, w[b - 1]@);
                }
            } else {
                assert(q[a] == w[a - 1] && q[b] == w[b - 1]);
            }
        }
        assert(set_of(q) =~= set_of(w).insert(xv)) by {
            assert forall|s: Seq<char>| set_of(w).contains(s) implies set_of(q).contains(s) by {
                let k = choose|k: int| 0 <= k < w.len() && w[k]@ == s;
                if k < j {
                    assert(q[k] == w[k]);
                } else {
                    assert(q[k + 1] == w[k]);
                }
            }
            assert forall|s: Seq<char>| set_of(q).contains(s) implies set_of(w).contains(s) || s
                == xv by {
                let k = choose|k: int| 0 <= k < q.len() && q[k]@ == s;
                if k < j {
                    assert(q[k] == w[k]);
                } else if k > j {
                    assert(q[k] == w[k - 1]);
                }
            }
        }
    }
}

/// The distinct values of `column` across all the records, in ascending
/// lexical order without repeats. The caller shows a value filter only
/// where there is more than one.
pub fn unique_values(records: &Vec<TableData>, column: SortColumn) -> (r: Vec<String>)
    ensures
        strictly_sorted(r@),
        set_of(r@) == column_values(rows_view(records@), column),
{
    let ghost rows = rows_view(records@);
    let mut out: Vec<String> = Vec::new();
    let mut i: usize = 0;
    assert(set_of(out@) =~= column_values(rows.take(0), column));
    while i < records.len()
        invariant
            rows == rows_view(records@),
            i <= records.len(),
            strictly_sorted(out@),
            set_of(out@) == column_values(rows.take(i as int), column),
        decreases records.len() - i,
    {
        let v = value_text(column, &records[i]);
        let ghost vv = v@;
        insert_sorted(&mut out, v);
        proof {
            let pre = rows.take(i as int);
            let post = rows.take(i + 1);
            assert(column_values(post, column) =~= column_values(pre, column).insert(vv)) by {
                assert(post[i as int] == rows[i as int]);
                assert forall|s: Seq<char>| column_values(pre, column).contains(s) implies column_values(
                    post,
                    column,
                ).contains(s) by {
                    let k = choose|k: int| 0 <= k < pre.len() && value_of(column, pre[k]) == s;
                    assert(post[k] == pre[k]);
                }
                assert forall|s: Seq<char>| column_values(post, column).contains(s) implies column_values(
                    pre,
                    column,
                ).contains(s) || s == vv by {
                    let k = choose|k: int| 0 <= k < post.len() && value_of(column, post[k]) == s;
                    if k < i {
                        assert(post[k] == pre[k]);
                    }
                }
            }
        }
        i = i + 1;
    }
    assert(rows.take(records.len() as int) =~= rows);
    out
}

} // verus!
