//! View state: the selected row, the details-pane scroll offset and the
//! active modal, together with the clamping that keeps the selection
//! valid across reloads and the table-offset geometry.

use vstd::prelude::*;

verus! {

/// How far one page-scroll key moves the details pane.
pub const SCROLL_STEP: u16 = 4;

/// The one modal overlay the dashboard knows.
#[derive(Debug, Clone, Copy, PartialEq, Eq, Structural)]
pub enum Modal {
    Help,
}

/// Cursor and scroll state of the view, owned by the reconciler.
#[derive(Debug, Clone)]
pub struct ViewState {
    pub selected_idx: usize,
    pub details_scroll: u16,
    pub modal: Option<Modal>,
}

/// Where the selection lands after a reload: unchanged while still in
/// bounds, clamped to the last row when the list shrank, and zero for an
/// empty list.
pub open spec fn clamped_index(sel: nat, total: nat) -> nat {
    if total == 0 {
        0
    } else if sel < total {
        sel
    } else {
        (total - 1) as nat
    }
}

/// After any reload the selection is valid for the new list: within
/// bounds when the list is non-empty, and zero when it is empty.
pub proof fn lemma_selection_valid_after_reload(sel: nat, total: nat)
    ensures
        total > 0 ==> clamped_index(sel, total) < total,
        total == 0 ==> clamped_index(sel, total) == 0,
{
}

impl ViewState {
    /// The initial view: first row selected, no scroll, no modal.
    pub fn new() -> (v: ViewState)
        ensures
            v.selected_idx == 0,
            v.details_scroll == 0,
            v.modal is None,
    {
        ViewState { selected_idx: 0, details_scroll: 0, modal: None }
    }

    /// Reconcile the selection with a new list length; scroll and modal
    /// are left alone.
    pub fn clamp_selection(&mut self, total: usize)
        ensures
            final(self).selected_idx as nat == clamped_index(
                old(self).selected_idx as nat,
                total as nat,
            ),
            final(self).details_scroll == old(self).details_scroll,
            final(self).modal == old(self).modal,
    {
        if total == 0 {
            self.selected_idx = 0;
        } else if self.selected_idx >= total {
            self.selected_idx = total - 1;
        }
    }
}

/// The table scroll offset that keeps the selected row near the middle
/// of the viewport: as far down as the selection allows, but never past
/// the point where the last row reaches the bottom.
pub open spec fn table_offset_spec(selected: nat, rows: nat, viewport_rows: nat) -> nat {
    if viewport_rows == 0 || rows <= viewport_rows {
        0
    } else {
        let mid = viewport_rows / 2;
        let desired: nat = if selected > mid {
            (selected - mid) as nat
        } else {
            0
        };
        let max_offset: nat = (rows - viewport_rows) as nat;
        if desired < max_offset {
            desired
        } else {
            max_offset
        }
    }
}

/// Compute the first visible table row for a viewport of the given
/// height.
pub fn compute_table_offset(selected: usize, rows: usize, viewport_rows: usize) -> (r: usize)
    ensures
        r as nat == table_offset_spec(selected as nat, rows as nat, viewport_rows as nat),
{
    if viewport_rows == 0 || rows <= viewport_rows {
        return 0;
    }
    let mid = viewport_rows / 2;
    let desired = if selected > mid {
        selected - mid
    } else {
        0
    };
    let max_offset = rows - viewport_rows;
    if desired < max_offset {
        desired
    } else {
        max_offset
    }
}

} // verus!
