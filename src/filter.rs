//! The filter engine and the filter-state store: per column either a set of
//! accepted values or, for the creation timestamp, a date range.
use vstd::prelude::*;

use crate::model::{RowView, SortColumn, TableData};
use crate::sort::rows_view;
use crate::text::{compare_text, decimal, decimal_text, lemma_lex_cmp_antisym, lemma_lex_cmp_trans, lex_cmp};

verus! {

/// Why a filter-state update was refused: the column holds the other kind
/// of filter.
#[derive(Copy, Clone, PartialEq, Eq, Debug, Structural)]
pub enum FilterError {
    InvariantViolation,
}

/// The filter of one column: the values it accepts, or a date range.
#[derive(Clone, PartialEq, Debug)]
pub enum FilterState {
    Values(Vec<String>),
    DateRange { start: Option<String>, end: Option<String> },
}

/// The value of a row that a column's value filter looks at: the id in
/// decimal, the text field verbatim, or the timestamp text.
pub open spec fn value_of(c: SortColumn, r: RowView) -> Seq<char> {
    match c {
        SortColumn::Id => decimal(r.id),
        SortColumn::Name => r.name,
        SortColumn::Email => r.email,
        SortColumn::Role => r.role,
        SortColumn::DateTime => r.created_at,
    }
}

/// The mathematical content of the filter states: one accepted set per
/// value column and the two optional bounds of the date range.
pub struct FilterModel {
    pub id: Set<Seq<char>>,
    pub name: Set<Seq<char>>,
    pub email: Set<Seq<char>>,
    pub role: Set<Seq<char>>,
    pub start: Option<Seq<char>>,
    pub end: Option<Seq<char>>,
}

impl FilterModel {
    /// The accepted set of a value column (empty for the date column).
    pub open spec fn accepted(self, c: SortColumn) -> Set<Seq<char>> {
        match c {
            SortColumn::Id => self.id,
            SortColumn::Name => self.name,
            SortColumn::Email => self.email,
            SortColumn::Role => self.role,
            SortColumn::DateTime => Set::empty(),
        }
    }

    /// The same states with the accepted set of value column `c` replaced.
    pub open spec fn with_accepted(self, c: SortColumn, s: Set<Seq<char>>) -> FilterModel {
        match c {
            SortColumn::Id => FilterModel { id: s, ..self },
            SortColumn::Name => FilterModel { name: s, ..self },
            SortColumn::Email => FilterModel { email: s, ..self },
            SortColumn::Role => FilterModel { role: s, ..self },
            SortColumn::DateTime => self,
        }
    }

    /// The states with no restriction on any column.
    pub open spec fn unrestricted() -> FilterModel {
        FilterModel {
            id: Set::empty(),
            name: Set::empty(),
            email: Set::empty(),
            role: Set::empty(),
            start: None,
            end: None,
        }
    }
}

/// An accepted set lets a value through when it is empty or holds it.
pub open spec fn passes_set(accepted: Set<Seq<char>>, v: Seq<char>) -> bool {
    accepted == Set::<Seq<char>>::empty() || accepted.contains(v)
}

/// A timestamp lies within the bounds that are present.
pub open spec fn in_range(start: Option<Seq<char>>, end: Option<Seq<char>>, ts: Seq<char>) -> bool {
    &&& (start matches Some(s) ==> lex_cmp(ts, s) >= 0)
    &&& (end matches Some(e) ==> lex_cmp(ts, e) <= 0)
}

/// Whether the filter of column `c` lets row `r` through.
pub open spec fn column_passes(m: FilterModel, c: SortColumn, r: RowView) -> bool {
    match c {
        SortColumn::DateTime => in_range(m.start, m.end, r.created_at),
        _ => passes_set(m.accepted(c), value_of(c, r)),
    }
}

/// A row survives when no column's filter rejects it.
pub open spec fn passes(m: FilterModel, r: RowView) -> bool {
    forall|c: SortColumn| #[trigger] column_passes(m, c, r)
}

/// A row passes every column's filter but that of column `c`.
pub open spec fn passes_except(m: FilterModel, c: SortColumn, r: RowView) -> bool {
    forall|d: SortColumn| d != c ==> #[trigger] column_passes(m, d, r)
}

/// The rows that survive the filters, in their order.
pub open spec fn kept(rows: Seq<RowView>, m: FilterModel) -> Seq<RowView> {
    rows.filter(|r: RowView| passes(m, r))
}

/// The set of texts that a vector of strings holds.
pub open spec fn set_of(v: Seq<String>) -> Set<Seq<char>> {
    Set::new(|x: Seq<char>| exists|i: int| 0 <= i < v.len() && v[i]@ == x)
}

proof fn lemma_set_of_empty(v: Seq<String>)
    ensures
        (set_of(v) == Set::<Seq<char>>::empty()) == (v.len() == 0),
{
    if v.len() > 0 {
        assert(set_of(v).contains(v[0]@));
    } else {
        assert(set_of(v) =~= Set::<Seq<char>>::empty());
    }
}

fn contains_value(v: &Vec<String>, x: &String) -> (r: bool)
    ensures
        r == set_of(v@).contains(x@),
{
    let mut i: usize = 0;
    while i < v.len()
        invariant
            i <= v@.len(),
            forall|t: int| 0 <= t < i ==> v@[t]@ != x@,
        decreases v@.len() - i,
    {
        if v[i] == *x {
            return true;
        }
        i = i + 1;
    }
    false
}

fn insert_value(v: &mut Vec<String>, x: String)
    ensures
        set_of(final(v)@) == set_of(old(v)@).insert(x@),
{
    if !contains_value(v, &x) {
        let ghost x_view = x@;
        v.push(x);
        assert(set_of(v@) =~= set_of(old(v)@).insert(x_view)) by {
            assert(v@[v@.len() - 1]@ == x_view);
            assert forall|s: Seq<char>| set_of(old(v)@).contains(s) implies set_of(v@).contains(s) by {
                let i = choose|i: int| 0 <= i < old(v)@.len() && old(v)@[i]@ == s;
                assert(v@[i] == old(v)@[i]);
            }
        }
    } else {
        assert(set_of(v@) =~= set_of(old(v)@).insert(x@));
    }
}

fn remove_value(v: &mut Vec<String>, x: &String)
    ensures
        set_of(final(v)@) == set_of(old(v)@).remove(x@),
{
    let mut out: Vec<String> = Vec::new();
    let mut i: usize = 0;
    while i < v.len()
        invariant
            i <= v@.len(),
            v@ == old(v)@,
            set_of(out@) == set_of(v@.take(i as int)).remove(x@),
        decreases v@.len() - i,
    {
        let ghost before = out@;
        let ghost pre = v@.take(i as int);
        let ghost post = v@.take(i + 1);
        assert(set_of(post) =~= set_of(pre).insert(v@[i as int]@)) by {
            assert(post[i as int] == v@[i as int]);
            assert forall|s: Seq<char>| set_of(pre).contains(s) implies set_of(post).contains(s) by {
                let k = choose|k: int| 0 <= k < pre.len() && pre[k]@ == s;
                assert(post[k] == v@[k]);
            }
            assert forall|s: Seq<char>| set_of(post).contains(s) implies set_of(pre).contains(s)
                || s == v@[i as int]@ by {
                let k = choose|k: int| 0 <= k < post.len() && post[k]@ == s;
                if k < i {
                    assert(pre[k] == v@[k]);
                }
            }
        }
        if v[i] != *x {
            let s = v[i].clone();
            out.push(s);
            assert(set_of(out@) =~= set_of(before).insert(v@[i as int]@)) by {
                assert(out@[out@.len() - 1]@ == v@[i as int]@);
                assert forall|t: Seq<char>| set_of(before).contains(t) implies set_of(out@).contains(
                    t,
                ) by {
                    let k = choose|k: int| 0 <= k < before.len() && before[k]@ == t;
                    assert(out@[k] == before[k]);
                }
            }
        }
        assert(set_of(out@) =~= set_of(v@.take(i + 1)).remove(x@));
        i = i + 1;
    }
    assert(v@.take(v@.len() as int) =~= v@);
    *v = out;
}

/// The filter states of all columns: a value set for each of `Id`, `Name`,
/// `Email` and `Role`, and a date range for `DateTime`. The kinds are fixed
/// by the fields, so no column can hold the other kind of filter.
#[derive(Clone, Debug)]
pub struct FilterStates {
    id: Vec<String>,
    name: Vec<String>,
    email: Vec<String>,
    role: Vec<String>,
    start: Option<String>,
    end: Option<String>,
}

/// The text of an optional string.
pub open spec fn opt_view(o: Option<String>) -> Option<Seq<char>> {
    match o {
        Some(s) => Some(s@),
        None => None,
    }
}

impl View for FilterStates {
    type V = FilterModel;

    closed spec fn view(&self) -> FilterModel {
        FilterModel {
            id: set_of(self.id@),
            name: set_of(self.name@),
            email: set_of(self.email@),
            role: set_of(self.role@),
            start: opt_view(self.start),
            end: opt_view(self.end),
        }
    }
}

fn copy_opt(o: &Option<String>) -> (r: Option<String>)
    ensures
        opt_view(r) == opt_view(*o),
{
    match o {
        Some(s) => Some(s.clone()),
        None => None,
    }
}

fn copy_values(v: &Vec<String>) -> (r: Vec<String>)
    ensures
        r@.len() == v@.len(),
        forall|i: int| 0 <= i < v@.len() ==> r@[i]@ == v@[i]@,
        set_of(r@) == set_of(v@),
{
    let mut out: Vec<String> = Vec::new();
    let mut i: usize = 0;
    while i < v.len()
        invariant
            i <= v@.len(),
            out@.len() == i,
            forall|t: int| 0 <= t < i ==> out@[t]@ == v@[t]@,
        decreases v@.len() - i,
    {
        out.push(v[i].clone());
        i = i + 1;
    }
    assert(set_of(out@) =~= set_of(v@));
    out
}

impl FilterStates {
    /// The initial states: every value set empty and the range unbounded,
    /// so that nothing is filtered out.
    pub fn new() -> (r: FilterStates)
        ensures
            r@ == FilterModel::unrestricted(),
    {
        let r = FilterStates {
            id: Vec::new(),
            name: Vec::new(),
            email: Vec::new(),
            role: Vec::new(),
            start: None,
            end: None,
        };
        assert(set_of(r.id@) =~= Set::<Seq<char>>::empty());
        r
    }

    /// Adds `value` to the accepted set of `column` (`included`) or takes it
    /// out. Refused for the date column, which holds a range.
    pub fn toggle_value(&mut self, column: SortColumn, value: String, included: bool) -> (r: Result<
        (),
        FilterError,
    >)
        ensures
            column == SortColumn::DateTime ==> r == Err::<(), FilterError>(
                FilterError::InvariantViolation,
            ) && final(self)@ == old(self)@,
            column != SortColumn::DateTime ==> r is Ok && final(self)@ == old(self)@.with_accepted(
                column,
                if included {
                    old(self)@.accepted(column).insert(value@)
                } else {
                    old(self)@.accepted(column).remove(value@)
                },
            ),
    {
        let set: &mut Vec<String> = match column {
            SortColumn::Id => &mut self.id,
            SortColumn::Name => &mut self.name,
            SortColumn::Email => &mut self.email,
            SortColumn::Role => &mut self.role,
            SortColumn::DateTime => {
                return Err(FilterError::InvariantViolation);
            },
        };
        if included {
            insert_value(set, value);
        } else {
            remove_value(set, &value);
        }
        Ok(())
    }

    /// Replaces the start of the date range, keeping its end. Refused for
    /// the value columns.
    pub fn set_range_start(&mut self, column: SortColumn, value: Option<String>) -> (r: Result<
        (),
        FilterError,
    >)
        ensures
            column != SortColumn::DateTime ==> r == Err::<(), FilterError>(
                FilterError::InvariantViolation,
            ) && final(self)@ == old(self)@,
            column == SortColumn::DateTime ==> r is Ok && final(self)@ == (FilterModel {
                start: opt_view(value),
                ..old(self)@
            }),
    {
        if column != SortColumn::DateTime {
            return Err(FilterError::InvariantViolation);
        }
        self.start = value;
        Ok(())
    }

    /// Replaces the end of the date range, keeping its start. Refused for
    /// the value columns.
    pub fn set_range_end(&mut self, column: SortColumn, value: Option<String>) -> (r: Result<
        (),
        FilterError,
    >)
        ensures
            column != SortColumn::DateTime ==> r == Err::<(), FilterError>(
                FilterError::InvariantViolation,
            ) && final(self)@ == old(self)@,
            column == SortColumn::DateTime ==> r is Ok && final(self)@ == (FilterModel {
                end: opt_view(value),
                ..old(self)@
            }),
    {
        if column != SortColumn::DateTime {
            return Err(FilterError::InvariantViolation);
        }
        self.end = value;
        Ok(())
    }

    /// Whether `value` is in the accepted set of `column` (never for the
    /// date column).
    pub fn is_selected(&self, column: SortColumn, value: &String) -> (r: bool)
        ensures
            r == self@.accepted(column).contains(value@),
    {
        match column {
            SortColumn::Id => contains_value(&self.id, value),
            SortColumn::Name => contains_value(&self.name, value),
            SortColumn::Email => contains_value(&self.email, value),
            SortColumn::Role => contains_value(&self.role, value),
            SortColumn::DateTime => false,
        }
    }

    /// The filter of `column` as one value: its accepted values, or for the
    /// date column its range.
    pub fn state(&self, column: SortColumn) -> (r: FilterState)
        ensures
            column == SortColumn::DateTime ==> (r matches FilterState::DateRange { start, end }
                && opt_view(start) == self@.start && opt_view(end) == self@.end),
            column != SortColumn::DateTime ==> (r matches FilterState::Values(v) && set_of(v@)
                == self@.accepted(column)),
    {
        match column {
            SortColumn::Id => FilterState::Values(copy_values(&self.id)),
            SortColumn::Name => FilterState::Values(copy_values(&self.name)),
            SortColumn::Email => FilterState::Values(copy_values(&self.email)),
            SortColumn::Role => FilterState::Values(copy_values(&self.role)),
            SortColumn::DateTime => FilterState::DateRange {
                start: copy_opt(&self.start),
                end: copy_opt(&self.end),
            },
        }
    }

    /// The bounds of the date range.
    pub fn range(&self) -> (r: (Option<String>, Option<String>))
        ensures
            opt_view(r.0) == self@.start,
            opt_view(r.1) == self@.end,
    {
        (copy_opt(&self.start), copy_opt(&self.end))
    }

    fn set_passes(set: &Vec<String>, v: &String) -> (r: bool)
        ensures
            r == passes_set(set_of(set@), v@),
    {
        proof {
            lemma_set_of_empty(set@);
        }
        set.len() == 0 || contains_value(set, v)
    }

    /// Whether `row` survives every column's filter.
    pub fn row_passes(&self, row: &TableData) -> (r: bool)
        ensures
            r == passes(self@, row@),
    {
        let m = Ghost(self@);
        let ghost r = row@;
        let ok = Self::set_passes(&self.id, &decimal_text(row.id)) && Self::set_passes(
            &self.name,
            &row.name,
        ) && Self::set_passes(&self.email, &row.email) && Self::set_passes(&self.role, &row.role);
        let after_start = match &self.start {
            Some(s) => compare_text(row.created_at.as_str(), s.as_str()) >= 0,
            None => true,
        };
        let before_end = match &self.end {
            Some(e) => compare_text(row.created_at.as_str(), e.as_str()) <= 0,
            None => true,
        };
        proof {
            assert(column_passes(m@, SortColumn::Id, r) == passes_set(m@.id, decimal(r.id)));
            if ok && after_start && before_end {
                assert forall|c: SortColumn| #[trigger] column_passes(m@, c, r) by {
                    match c {
                        SortColumn::Id => {},
                        SortColumn::Name => {},
                        SortColumn::Email => {},
                        SortColumn::Role => {},
                        SortColumn::DateTime => {},
                    }
                }
            } else {
                assert(!column_passes(m@, SortColumn::Id, r) || !column_passes(
                    m@,
                    SortColumn::Name,
                    r,
                ) || !column_passes(m@, SortColumn::Email, r) || !column_passes(
                    m@,
                    SortColumn::Role,
                    r,
                ) || !column_passes(m@, SortColumn::DateTime, r));
            }
        }
        ok && after_start && before_end
    }
}

/// The records that survive the filters, in their order.
pub fn filter_rows(records: &Vec<TableData>, filters: &FilterStates) -> (r: Vec<TableData>)
    ensures
        rows_view(r@) == kept(rows_view(records@), filters@),
{
    let ghost rows = rows_view(records@);
    let mut out: Vec<TableData> = Vec::new();
    let mut i: usize = 0;
    while i < records.len()
        invariant
            rows == rows_view(records@),
            i <= records.len(),
            rows_view(out@) == kept(rows.take(i as int), filters@),
        decreases records.len() - i,
    {
        proof {
            reveal(Seq::filter);
        }
        assert(rows.take(i + 1).drop_last() =~= rows.take(i as int));
        assert(rows.take(i + 1).last() == records@[i as int]@);
        assert(kept(rows.take(i + 1), filters@) == {
            let sub = kept(rows.take(i as int), filters@);
            if passes(filters@, records@[i as int]@) {
                sub.push(records@[i as int]@)
            } else {
                sub
            }
        });
        let keep = filters.row_passes(&records[i]);
        if keep {
            let ghost before = out@;
            out.push(records[i].duplicate());
            assert(rows_view(out@) =~= rows_view(before).push(rows[i as int]));
        }
        i = i + 1;
    }
    assert(rows.take(records.len() as int) =~= rows);
    out
}

proof fn lemma_kept_len_mono(rows: Seq<RowView>, m1: FilterModel, m2: FilterModel)
    requires
        forall|r: RowView| passes(m1, r) ==> passes(m2, r),
    ensures
        kept(rows, m1).len() <= kept(rows, m2).len(),
    decreases rows.len(),
{
    reveal(Seq::filter);
    if rows.len() > 0 {
        lemma_kept_len_mono(rows.drop_last(), m1, m2);
    }
}

proof fn lemma_passes_grow(m: FilterModel, c: SortColumn, big: Set<Seq<char>>, r: RowView)
    requires
        c != SortColumn::DateTime,
        m.accepted(c) != Set::<Seq<char>>::empty(),
        m.accepted(c).subset_of(big),
        passes(m, r),
    ensures
        passes(m.with_accepted(c, big), r),
{
    let m2 = m.with_accepted(c, big);
    assert forall|d: SortColumn| #[trigger] column_passes(m2, d, r) by {
        assert(column_passes(m, d, r));
        if d == c {
            if big == Set::<Seq<char>>::empty() {
                assert(m.accepted(c) =~= Set::<Seq<char>>::empty());
            }
        }
    }
}

/// Adding a value to a non-empty accepted set never shrinks the filtered
/// rows. (Adding one to an empty set can: the empty set restricts nothing.)
pub proof fn lemma_add_value_monotone(rows: Seq<RowView>, m: FilterModel, c: SortColumn, v: Seq<char>)
    requires
        c != SortColumn::DateTime,
        m.accepted(c) != Set::<Seq<char>>::empty(),
    ensures
        kept(rows, m).len() <= kept(rows, m.with_accepted(c, m.accepted(c).insert(v))).len(),
{
    let m2 = m.with_accepted(c, m.accepted(c).insert(v));
    assert forall|r: RowView| passes(m, r) implies passes(m2, r) by {
        lemma_passes_grow(m, c, m.accepted(c).insert(v), r);
    }
    lemma_kept_len_mono(rows, m, m2);
}

/// Removing a value from an accepted set that keeps another value never
/// grows the filtered rows. (Removing the last one can: the empty set
/// restricts nothing.)
pub proof fn lemma_remove_value_monotone(
    rows: Seq<RowView>,
    m: FilterModel,
    c: SortColumn,
    v: Seq<char>,
)
    requires
        c != SortColumn::DateTime,
        m.accepted(c).remove(v) != Set::<Seq<char>>::empty(),
    ensures
        kept(rows, m.with_accepted(c, m.accepted(c).remove(v))).len() <= kept(rows, m).len(),
{
    let small = m.with_accepted(c, m.accepted(c).remove(v));
    assert(small.accepted(c) == m.accepted(c).remove(v));
    assert(small.with_accepted(c, m.accepted(c)) == m);
    assert forall|r: RowView| passes(small, r) implies passes(m, r) by {
        lemma_passes_grow(small, c, m.accepted(c), r);
    }
    lemma_kept_len_mono(rows, small, m);
}

/// A column whose filter is an empty value set (or, for the date column, a
/// range without bounds) lets through the same rows as no filter on it.
pub proof fn lemma_empty_filter_unrestricted(rows: Seq<RowView>, m: FilterModel, c: SortColumn)
    requires
        c != SortColumn::DateTime ==> m.accepted(c) == Set::<Seq<char>>::empty(),
        c == SortColumn::DateTime ==> m.start is None && m.end is None,
    ensures
        kept(rows, m) == rows.filter(|r: RowView| passes_except(m, c, r)),
{
    assert forall|r: RowView| passes_except(m, c, r) implies passes(m, r) by {
        assert forall|d: SortColumn| #[trigger] column_passes(m, d, r) by {
            if d == c {
            } else {
                assert(column_passes(m, d, r));
            }
        }
    }
    assert((|r: RowView| passes(m, r)) =~= (|r: RowView| passes_except(m, c, r)));
}

/// A range whose start lies after its end lets no row through.
pub proof fn lemma_inverted_range_empty(
    rows: Seq<RowView>,
    m: FilterModel,
    t1: Seq<char>,
    t2: Seq<char>,
)
    requires
        m.start == Some(t2),
        m.end == Some(t1),
        lex_cmp(t1, t2) < 0,
    ensures
        kept(rows, m).len() == 0,
{
    if kept(rows, m).len() > 0 {
        rows.lemma_filter_pred(|r: RowView| passes(m, r), 0);
        let r = kept(rows, m)[0];
        assert(column_passes(m, SortColumn::DateTime, r));
        lemma_lex_cmp_antisym(r.created_at, t2);
        lemma_lex_cmp_trans(r.created_at, t1, t2);
    }
}

/// Including a value that was not accepted and then excluding it again
/// restores the filter states.
pub proof fn lemma_toggle_round_trip(m: FilterModel, c: SortColumn, v: Seq<char>)
    requires
        c != SortColumn::DateTime,
        !m.accepted(c).contains(v),
    ensures
        ({
            let m1 = m.with_accepted(c, m.accepted(c).insert(v));
            m1.with_accepted(c, m1.accepted(c).remove(v))
        }) == m,
{
    assert(m.accepted(c).insert(v).remove(v) =~= m.accepted(c));
}

} // verus!
