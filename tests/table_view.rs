use table_view::filter::{filter_rows, FilterError, FilterStates};
use table_view::model::{compare, compare_directed, SortColumn, SortOrder, TableData};
use table_view::popup::PopupState;
use table_view::sort::{next_directive, sort_order, sort_rows};
use table_view::text::compare_text;
use table_view::view::{derive_view, unique_values, value_text};

fn row(id: usize, name: &str, role: &str, email: &str, created_at: &str) -> TableData {
    TableData {
        id,
        name: name.to_string(),
        email: email.to_string(),
        role: role.to_string(),
        created_at: created_at.to_string(),
    }
}

fn two_rows() -> Vec<TableData> {
    vec![
        row(1, "Bob", "Dev", "b@x.com", "2024-01-02T00:00:00Z"),
        row(2, "alice", "Mgr", "a@x.com", "2024-01-01T00:00:00Z"),
    ]
}

fn ids(rows: &[TableData]) -> Vec<usize> {
    rows.iter().map(|r| r.id).collect()
}

fn team() -> Vec<TableData> {
    vec![
        row(1, "Eve", "Dev", "e@x.com", "2024-01-03T00:00:00Z"),
        row(2, "dan", "Mgr", "d@x.com", "2024-01-01T00:00:00Z"),
        row(3, "Carl", "dev", "c@x.com", "2024-01-02T00:00:00Z"),
        row(4, "Bea", "Mgr", "b@x.com", "2024-01-04T00:00:00Z"),
        row(10, "Al", "Dev", "a@x.com", "2024-01-02T00:00:00Z"),
    ]
}

#[test]
fn sort_by_name_ignores_case() {
    let sorted = sort_rows(&two_rows(), Some((SortColumn::Name, SortOrder::Ascending)));
    assert_eq!(ids(&sorted), vec![2, 1]);
}

#[test]
fn filter_role_dev_keeps_first() {
    let mut f = FilterStates::new();
    assert_eq!(f.toggle_value(SortColumn::Role, "Dev".to_string(), true), Ok(()));
    assert_eq!(ids(&filter_rows(&two_rows(), &f)), vec![1]);
}

#[test]
fn filter_range_start_keeps_first() {
    let mut f = FilterStates::new();
    let r = f.set_range_start(SortColumn::DateTime, Some("2024-01-02T00:00:00Z".to_string()));
    assert_eq!(r, Ok(()));
    assert_eq!(ids(&filter_rows(&two_rows(), &f)), vec![1]);
}

#[test]
fn toggle_on_then_off_restores_unfiltered() {
    let rows = two_rows();
    let mut f = FilterStates::new();
    f.toggle_value(SortColumn::Role, "Dev".to_string(), true).unwrap();
    f.toggle_value(SortColumn::Role, "Dev".to_string(), false).unwrap();
    assert_eq!(ids(&filter_rows(&rows, &f)), ids(&rows));
    assert!(!f.is_selected(SortColumn::Role, &"Dev".to_string()));
}

#[test]
fn no_directive_keeps_input_order() {
    assert_eq!(ids(&sort_rows(&team(), None)), vec![1, 2, 3, 4, 10]);
}

#[test]
fn sort_is_stable_on_equal_keys() {
    let rows = team();
    let asc = sort_rows(&rows, Some((SortColumn::Role, SortOrder::Ascending)));
    assert_eq!(ids(&asc), vec![1, 3, 10, 2, 4]);
    let desc = sort_rows(&rows, Some((SortColumn::Role, SortOrder::Descending)));
    assert_eq!(ids(&desc), vec![2, 4, 1, 3, 10]);
}

#[test]
fn toggling_twice_restores_order() {
    let rows = team();
    let d1 = next_directive(None, SortColumn::Role);
    assert_eq!(d1, Some((SortColumn::Role, SortOrder::Ascending)));
    let d2 = next_directive(d1, SortColumn::Role);
    assert_eq!(d2, Some((SortColumn::Role, SortOrder::Descending)));
    let d3 = next_directive(d2, SortColumn::Role);
    assert_eq!(d3, d1);
    let first = sort_rows(&rows, d1);
    let again = sort_rows(&sort_rows(&first, d2), d3);
    assert_eq!(ids(&again), ids(&first));
}

#[test]
fn header_click_on_other_column_starts_ascending() {
    let d = Some((SortColumn::Name, SortOrder::Descending));
    assert_eq!(
        next_directive(d, SortColumn::Id),
        Some((SortColumn::Id, SortOrder::Ascending))
    );
    assert_eq!(
        next_directive(d, SortColumn::Name),
        Some((SortColumn::Name, SortOrder::Ascending))
    );
}

#[test]
fn sort_by_id_is_numeric() {
    let sorted = sort_rows(&team(), Some((SortColumn::Id, SortOrder::Descending)));
    assert_eq!(ids(&sorted), vec![10, 4, 3, 2, 1]);
}

#[test]
fn sort_by_timestamp_is_chronological() {
    let sorted = sort_rows(&team(), Some((SortColumn::DateTime, SortOrder::Ascending)));
    assert_eq!(ids(&sorted), vec![2, 3, 10, 1, 4]);
}

#[test]
fn sort_order_lists_positions() {
    let p = sort_order(&team(), SortColumn::Name, SortOrder::Ascending);
    assert_eq!(p, vec![4, 3, 2, 1, 0]);
}

#[test]
fn derivation_is_repeatable() {
    let rows = team();
    let mut f = FilterStates::new();
    f.toggle_value(SortColumn::Role, "Dev".to_string(), true).unwrap();
    let d = Some((SortColumn::Name, SortOrder::Ascending));
    let a = derive_view(&rows, d, &f);
    let b = derive_view(&rows, d, &f);
    assert_eq!(a, b);
    assert_eq!(ids(&a), vec![10, 1]);
}

#[test]
fn adding_values_never_shrinks_output() {
    let rows = team();
    let mut f = FilterStates::new();
    f.toggle_value(SortColumn::Name, "Eve".to_string(), true).unwrap();
    let one = filter_rows(&rows, &f).len();
    f.toggle_value(SortColumn::Name, "Bea".to_string(), true).unwrap();
    let two = filter_rows(&rows, &f).len();
    assert_eq!((one, two), (1, 2));
    f.toggle_value(SortColumn::Name, "Eve".to_string(), false).unwrap();
    assert_eq!(filter_rows(&rows, &f).len(), 1);
}

#[test]
fn empty_value_set_restricts_nothing() {
    let rows = team();
    let f = FilterStates::new();
    assert_eq!(ids(&filter_rows(&rows, &f)), ids(&rows));
}

#[test]
fn inverted_range_keeps_nothing() {
    let rows = team();
    let mut f = FilterStates::new();
    f.set_range_start(SortColumn::DateTime, Some("2024-01-03T00:00:00Z".to_string())).unwrap();
    f.set_range_end(SortColumn::DateTime, Some("2024-01-02T00:00:00Z".to_string())).unwrap();
    assert!(filter_rows(&rows, &f).is_empty());
}

#[test]
fn range_bounds_are_inclusive() {
    let rows = team();
    let mut f = FilterStates::new();
    f.set_range_start(SortColumn::DateTime, Some("2024-01-02T00:00:00Z".to_string())).unwrap();
    f.set_range_end(SortColumn::DateTime, Some("2024-01-03T00:00:00Z".to_string())).unwrap();
    assert_eq!(ids(&filter_rows(&rows, &f)), vec![1, 3, 10]);
    f.set_range_start(SortColumn::DateTime, None).unwrap();
    assert_eq!(ids(&filter_rows(&rows, &f)), vec![1, 2, 3, 10]);
    let (s, e) = f.range();
    assert_eq!(s, None);
    assert_eq!(e, Some("2024-01-03T00:00:00Z".to_string()));
}

#[test]
fn value_filter_is_case_sensitive() {
    let rows = team();
    let mut f = FilterStates::new();
    f.toggle_value(SortColumn::Role, "dev".to_string(), true).unwrap();
    assert_eq!(ids(&filter_rows(&rows, &f)), vec![3]);
}

#[test]
fn filters_on_columns_combine() {
    let rows = team();
    let mut f = FilterStates::new();
    f.toggle_value(SortColumn::Role, "Dev".to_string(), true).unwrap();
    f.toggle_value(SortColumn::Id, "10".to_string(), true).unwrap();
    assert_eq!(ids(&filter_rows(&rows, &f)), vec![10]);
}

#[test]
fn toggle_value_on_date_column_fails() {
    let mut f = FilterStates::new();
    assert_eq!(
        f.toggle_value(SortColumn::DateTime, "2024".to_string(), true),
        Err(FilterError::InvariantViolation)
    );
}

#[test]
fn range_update_on_value_column_fails() {
    let mut f = FilterStates::new();
    assert_eq!(
        f.set_range_start(SortColumn::Name, Some("x".to_string())),
        Err(FilterError::InvariantViolation)
    );
    assert_eq!(
        f.set_range_end(SortColumn::Email, None),
        Err(FilterError::InvariantViolation)
    );
}

#[test]
fn popup_opening_b_closes_a() {
    let mut p = PopupState::new();
    p.toggle(SortColumn::Name);
    p.toggle(SortColumn::Role);
    assert!(!p.is_open(SortColumn::Name));
    assert!(p.is_open(SortColumn::Role));
    p.toggle(SortColumn::Role);
    assert_eq!(p.open_column(), None);
}

#[test]
fn unique_values_sorted_and_distinct() {
    let rows = team();
    let roles = unique_values(&rows, SortColumn::Role);
    assert_eq!(roles, vec!["Dev".to_string(), "Mgr".to_string(), "dev".to_string()]);
    let ids = unique_values(&rows, SortColumn::Id);
    assert_eq!(
        ids,
        vec!["1".to_string(), "10".to_string(), "2".to_string(), "3".to_string(), "4".to_string()]
    );
    assert!(unique_values(&Vec::new(), SortColumn::Name).is_empty());
}

#[test]
fn id_value_is_decimal_text() {
    assert_eq!(value_text(SortColumn::Id, &row(305, "a", "b", "c", "d")), "305");
    assert_eq!(value_text(SortColumn::Email, &row(0, "a", "b", "c", "d")), "c");
}

#[test]
fn compare_follows_column_rules() {
    let a = row(9, "alice", "Dev", "A@x.com", "2024-01-01T00:00:00Z");
    let b = row(10, "Bob", "dev", "a@x.com", "2023-12-31T00:00:00Z");
    assert_eq!(compare(SortColumn::Id, &a, &b), -1);
    assert_eq!(compare(SortColumn::Name, &a, &b), -1);
    assert_eq!(compare(SortColumn::Email, &a, &b), 0);
    assert_eq!(compare(SortColumn::Role, &a, &b), 0);
    assert_eq!(compare(SortColumn::DateTime, &a, &b), 1);
    assert_eq!(compare_directed(SortColumn::Id, SortOrder::Descending, &a, &b), 1);
}

#[test]
fn compare_text_is_lexical() {
    assert_eq!(compare_text("abc", "abd"), -1);
    assert_eq!(compare_text("ab", "a"), 1);
    assert_eq!(compare_text("", ""), 0);
    assert_eq!(compare_text("Z", "a"), -1);
}

#[test]
fn empty_records_give_empty_view() {
    let f = FilterStates::new();
    let v = derive_view(&Vec::new(), Some((SortColumn::Name, SortOrder::Ascending)), &f);
    assert!(v.is_empty());
}
