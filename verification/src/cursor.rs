//! Cursors over the two lists, kept in the list widget's own state type.
//!
//! A cursor is either nowhere or on a row of its list. The first step, up
//! or down, puts it on the first row. At either end of the list it stops; it
//! does not wrap around. When the list gets shorter than the cursor's row
//! number, the cursor goes to the last row, and nowhere if the list is
//! empty.

use ratatui::widgets::ListState;
use vstd::prelude::*;

verus! {

/// The list widget's state. Its fields are private to the widget library, so
/// the value is opaque here and is read only through [`list_selected`].
#[verifier::external_type_specification]
#[verifier::external_body]
pub struct ExListState(ListState);

/// The index that a list state marks as selected, if any.
pub uninterp spec fn list_selected(state: ListState) -> Option<usize>;

/// `ListState::default`: a fresh state selects nothing.
pub assume_specification[ <ListState as Default>::default ]() -> (state: ListState)
    ensures
        list_selected(state) is None,
;

/// `ListState::selected` returns the stored index unchanged.
pub assume_specification[ ListState::selected ](state: &ListState) -> (index: Option<usize>)
    ensures
        index == list_selected(*state),
;

/// `ListState::select` stores the given index.
pub assume_specification[ ListState::select ](state: &mut ListState, index: Option<usize>)
    ensures
        list_selected(*final(state)) == index,
;

/// `ListState::select_next` selects index 0 when nothing was selected and
/// otherwise adds one to the index, stopping at `usize::MAX`.
pub assume_specification[ ListState::select_next ](state: &mut ListState)
    ensures
        list_selected(*final(state)) == Some(
            match list_selected(*old(state)) {
                None => 0usize,
                Some(i) => if i < usize::MAX { (i + 1) as usize } else { i },
            },
        ),
;

/// `ListState::select_previous` selects `usize::MAX` when nothing was
/// selected and otherwise subtracts one from the index, stopping at 0.
pub assume_specification[ ListState::select_previous ](state: &mut ListState)
    ensures
        list_selected(*final(state)) == Some(
            match list_selected(*old(state)) {
                None => usize::MAX,
                Some(i) => if i > 0 { (i - 1) as usize } else { i },
            },
        ),
;

/// The cursor that a list state holds, as a row number.
pub open spec fn cursor_of(state: ListState) -> Option<nat> {
    match list_selected(state) {
        Some(i) => Some(i as nat),
        None => None,
    }
}

/// Where a cursor comes to rest on a list of `len` rows: nowhere on an empty
/// list, on the last row when it points past the end, else where it is.
pub open spec fn clamp_to(cursor: Option<nat>, len: nat) -> Option<nat> {
    match cursor {
        None => None,
        Some(i) => if len == 0 {
            None
        } else if i >= len {
            Some((len - 1) as nat)
        } else {
            Some(i)
        },
    }
}

/// The cursor one row down; a cursor that was nowhere goes to the first row.
pub open spec fn next_of(cursor: Option<nat>) -> Option<nat> {
    Some(
        match cursor {
            None => 0,
            Some(i) => i + 1,
        },
    )
}

/// The cursor one row up, staying on the first row; a cursor that was
/// nowhere goes to the first row.
pub open spec fn previous_of(cursor: Option<nat>) -> Option<nat> {
    Some(
        match cursor {
            None => 0,
            Some(i) => if i > 0 {
                (i - 1) as nat
            } else {
                0
            },
        },
    )
}

/// Brings the cursor back onto a list of `len` rows.
pub fn clamp_selection(state: &mut ListState, len: usize)
    ensures
        cursor_of(*final(state)) == clamp_to(cursor_of(*old(state)), len as nat),
{
    match state.selected() {
        None => {},
        Some(i) => {
            if len == 0 {
                state.select(None);
            } else if i >= len {
                state.select(Some(len - 1));
            }
        },
    }
}

/// Moves the cursor one row down on a list of `len` rows and keeps it on
/// the list.
pub fn step_down(state: &mut ListState, len: usize)
    ensures
        cursor_of(*final(state)) == clamp_to(next_of(cursor_of(*old(state))), len as nat),
{
    state.select_next();
    clamp_selection(state, len);
}

/// Moves the cursor one row up on a list of `len` rows and keeps it on the
/// list. With no row selected the first one is taken, as when moving down.
pub fn step_up(state: &mut ListState, len: usize)
    ensures
        cursor_of(*final(state)) == clamp_to(previous_of(cursor_of(*old(state))), len as nat),
{
    if state.selected().is_none() {
        state.select(Some(0));
    } else {
        state.select_previous();
    }
    clamp_selection(state, len);
}

} // verus!
