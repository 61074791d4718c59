//! Which column's filter popup is open: at most one at a time.
use vstd::prelude::*;

use crate::model::SortColumn;

verus! {

/// The popup state after toggling `column`: toggling the open column closes
/// it, toggling another column opens that one and closes the rest.
pub open spec fn toggled(open: Option<SortColumn>, column: SortColumn) -> Option<SortColumn> {
    if open == Some(column) {
        None
    } else {
        Some(column)
    }
}

/// The filter popup controller; its view is the open column, if any.
#[derive(Clone, Debug)]
pub struct PopupState {
    open: Option<SortColumn>,
}

impl View for PopupState {
    type V = Option<SortColumn>;

    closed spec fn view(&self) -> Option<SortColumn> {
        self.open
    }
}

impl PopupState {
    /// All popups closed.
    pub fn new() -> (r: PopupState)
        ensures
            r@ == None::<SortColumn>,
    {
        PopupState { open: None }
    }

    /// Opens the popup of `column`, or closes it where it is open.
    pub fn toggle(&mut self, column: SortColumn)
        ensures
            final(self)@ == toggled(old(self)@, column),
    {
        let now_open = match self.open {
            Some(c) => c == column,
            None => false,
        };
        if now_open {
            self.open = None;
        } else {
            self.open = Some(column);
        }
    }

    /// Whether the popup of `column` is open.
    pub fn is_open(&self, column: SortColumn) -> (r: bool)
        ensures
            r == (self@ == Some(column)),
    {
        match self.open {
            Some(c) => c == column,
            None => false,
        }
    }

    /// The open column, if any.
    pub fn open_column(&self) -> (r: Option<SortColumn>)
        ensures
            r == self@,
    {
        self.open
    }
}

/// Opening one popup closes any other: after toggling `a` and then a
/// different column `b`, the popup of `b` is open and that of `a` is not,
/// whatever was open before.
pub proof fn lemma_popup_exclusive(start: Option<SortColumn>, a: SortColumn, b: SortColumn)
    requires
        a != b,
    ensures
        toggled(toggled(start, a), b) == Some(b),
        toggled(toggled(start, a), b) != Some(a),
{
}

} // verus!
