//! The record model: one table row, the closed set of columns, and each
//! column's comparison rule.
use vstd::prelude::*;

use crate::text::{compare_text, lemma_lex_cmp_antisym, lemma_lex_cmp_range, lemma_lex_cmp_trans, lex_cmp, lower_of, lowercase};

verus! {

/// One row of the table as fetched; immutable once fetched.
#[derive(Clone, PartialEq, Debug)]
pub struct TableData {
    pub id: usize,
    pub name: String,
    pub email: String,
    pub role: String,
    pub created_at: String,
}

/// The mathematical content of a row.
pub struct RowView {
    pub id: nat,
    pub name: Seq<char>,
    pub email: Seq<char>,
    pub role: Seq<char>,
    pub created_at: Seq<char>,
}

impl View for TableData {
    type V = RowView;

    open spec fn view(&self) -> RowView {
        RowView {
            id: self.id as nat,
            name: self.name@,
            email: self.email@,
            role: self.role@,
            created_at: self.created_at@,
        }
    }
}

impl TableData {
    /// A copy of the row.
    pub fn duplicate(&self) -> (r: TableData)
        ensures
            r@ == self@,
    {
        TableData {
            id: self.id,
            name: self.name.clone(),
            email: self.email.clone(),
            role: self.role.clone(),
            created_at: self.created_at.clone(),
        }
    }
}

/// The columns of the table. `DateTime` is the creation timestamp.
#[derive(Copy, Clone, PartialEq, Eq, Hash, Debug, Structural)]
pub enum SortColumn {
    Id,
    Name,
    Email,
    Role,
    DateTime,
}

/// Direction of a sort.
#[derive(Copy, Clone, PartialEq, Eq, Debug, Structural)]
pub enum SortOrder {
    Ascending,
    Descending,
}

/// Three-way comparison of two rows under a column's rule: numeric for
/// `Id`, case-insensitive lexical for `Name`, `Email` and `Role`, and
/// chronological (lexical on the ISO-8601 text) for `DateTime`.
pub open spec fn key_cmp(c: SortColumn, a: RowView, b: RowView) -> int {
    match c {
        SortColumn::Id => if a.id < b.id {
            -1
        } else if a.id > b.id {
            1
        } else {
            0
        },
        SortColumn::Name => lex_cmp(lower_of(a.name), lower_of(b.name)),
        SortColumn::Email => lex_cmp(lower_of(a.email), lower_of(b.email)),
        SortColumn::Role => lex_cmp(lower_of(a.role), lower_of(b.role)),
        SortColumn::DateTime => lex_cmp(a.created_at, b.created_at),
    }
}

/// `key_cmp` with its sign reversed for a descending sort.
pub open spec fn order_cmp(c: SortColumn, o: SortOrder, a: RowView, b: RowView) -> int {
    match o {
        SortOrder::Ascending => key_cmp(c, a, b),
        SortOrder::Descending => -key_cmp(c, a, b),
    }
}

/// The directed comparison is a three-way answer, negated by swapping its
/// arguments.
pub proof fn lemma_order_cmp_antisym(c: SortColumn, o: SortOrder, a: RowView, b: RowView)
    ensures
        order_cmp(c, o, a, b) == -order_cmp(c, o, b, a),
        -1 <= order_cmp(c, o, a, b) <= 1,
{
    match c {
        SortColumn::Name => {
            lemma_lex_cmp_antisym(lower_of(a.name), lower_of(b.name));
            lemma_lex_cmp_range(lower_of(a.name), lower_of(b.name));
        },
        SortColumn::Email => {
            lemma_lex_cmp_antisym(lower_of(a.email), lower_of(b.email));
            lemma_lex_cmp_range(lower_of(a.email), lower_of(b.email));
        },
        SortColumn::Role => {
            lemma_lex_cmp_antisym(lower_of(a.role), lower_of(b.role));
            lemma_lex_cmp_range(lower_of(a.role), lower_of(b.role));
        },
        SortColumn::DateTime => {
            lemma_lex_cmp_antisym(a.created_at, b.created_at);
            lemma_lex_cmp_range(a.created_at, b.created_at);
        },
        SortColumn::Id => {},
    }
}

proof fn lemma_key_cmp_trans(c: SortColumn, a: RowView, b: RowView, d: RowView)
    requires
        key_cmp(c, a, b) <= 0,
        key_cmp(c, b, d) <= 0,
    ensures
        key_cmp(c, a, d) <= 0,
        (key_cmp(c, a, b) < 0 || key_cmp(c, b, d) < 0) ==> key_cmp(c, a, d) < 0,
{
    match c {
        SortColumn::Name => lemma_lex_cmp_trans(lower_of(a.name), lower_of(b.name), lower_of(d.name)),
        SortColumn::Email => lemma_lex_cmp_trans(
            lower_of(a.email),
            lower_of(b.email),
            lower_of(d.email),
        ),
        SortColumn::Role => lemma_lex_cmp_trans(lower_of(a.role), lower_of(b.role), lower_of(d.role)),
        SortColumn::DateTime => lemma_lex_cmp_trans(a.created_at, b.created_at, d.created_at),
        SortColumn::Id => {},
    }
}

/// The directed comparison is transitive, and strictly so where either step
/// is strict.
pub proof fn lemma_order_cmp_trans(c: SortColumn, o: SortOrder, a: RowView, b: RowView, d: RowView)
    requires
        order_cmp(c, o, a, b) <= 0,
        order_cmp(c, o, b, d) <= 0,
    ensures
        order_cmp(c, o, a, d) <= 0,
        (order_cmp(c, o, a, b) < 0 || order_cmp(c, o, b, d) < 0) ==> order_cmp(c, o, a, d) < 0,
{
    match o {
        SortOrder::Ascending => lemma_key_cmp_trans(c, a, b, d),
        SortOrder::Descending => {
            lemma_order_cmp_antisym(c, SortOrder::Ascending, a, b);
            lemma_order_cmp_antisym(c, SortOrder::Ascending, b, d);
            lemma_order_cmp_antisym(c, SortOrder::Ascending, a, d);
            lemma_key_cmp_trans(c, d, b, a);
        },
    }
}

fn compare_folded(a: &String, b: &String) -> (r: i8)
    ensures
        r as int == lex_cmp(lower_of(a@), lower_of(b@)),
{
    let la = lowercase(a.as_str());
    let lb = lowercase(b.as_str());
    compare_text(la.as_str(), lb.as_str())
}

/// Compares two rows under the column's rule: -1, 0 or 1.
pub fn compare(column: SortColumn, a: &TableData, b: &TableData) -> (r: i8)
    ensures
        r as int == key_cmp(column, a@, b@),
{
    match column {
        SortColumn::Id => if a.id < b.id {
            -1
        } else if a.id > b.id {
            1
        } else {
            0
        },
        SortColumn::Name => compare_folded(&a.name, &b.name),
        SortColumn::Email => compare_folded(&a.email, &b.email),
        SortColumn::Role => compare_folded(&a.role, &b.role),
        SortColumn::DateTime => compare_text(a.created_at.as_str(), b.created_at.as_str()),
    }
}

/// Compares two rows for a sort in the given direction: -1, 0 or 1.
pub fn compare_directed(column: SortColumn, order: SortOrder, a: &TableData, b: &TableData) -> (r: i8)
    ensures
        r as int == order_cmp(column, order, a@, b@),
{
    let k = compare(column, a, b);
    match order {
        SortOrder::Ascending => k,
        SortOrder::Descending => {
            proof {
                lemma_order_cmp_antisym(column, SortOrder::Ascending, a@, b@);
            }
            -k
        },
    }
}

} // verus!
