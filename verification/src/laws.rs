//! Board-level laws, proved once from the board invariant.

use vstd::prelude::*;

use crate::counting::{lemma_counts_bounds, lemma_counts_full};
use crate::geometry::{idx, in_bounds, lemma_coords_of_idx, lemma_idx_bounds};
use crate::table::BasicTable;

verus! {

/// Determinism of counts: on every well-formed board the mine count and the
/// opened-cell count together never exceed the number of cells, and the
/// opened-cell count is never negative. Equality is the win condition, which
/// `open_field` and `open_neighbors` report as `WINNER` exactly on the call
/// that reaches it.
pub proof fn lemma_board_counts(t: BasicTable)
    requires
        t.wf(),
    ensures
        0 <= t.opened_count(),
        t.mines().len() + t.opened_count() <= t.spec_height() * t.spec_width(),
{
    lemma_counts_bounds(t.grid());
}

/// The win condition is exact: the counts fill the board exactly when every
/// cell is opened or a mine — that is, when every non-mine cell is opened.
pub proof fn lemma_win_exact(t: BasicTable)
    requires
        t.wf(),
    ensures
        (t.mines().len() + t.opened_count() == t.spec_height() * t.spec_width()) <==> (forall|
            r: i64,
            c: i64,
        |
            in_bounds(t.spec_height(), t.spec_width(), r, c) ==> ((#[trigger] t.cell(r, c)).state
                is Opened || t.cell(r, c).field_type is Mine)),
{
    let h = t.spec_height();
    let w = t.spec_width();
    lemma_counts_full(t.grid());
    if t.mines().len() + t.opened_count() == h * w {
        assert forall|r: i64, c: i64| in_bounds(h, w, r, c) implies ((#[trigger] t.cell(
            r,
            c,
        )).state is Opened || t.cell(r, c).field_type is Mine) by {
            lemma_idx_bounds(h, w, r, c);
            assert(t.grid()[idx(w, r, c)].field_info == t.cell(r, c));
        }
    }
    if forall|r: i64, c: i64|
        in_bounds(h, w, r, c) ==> ((#[trigger] t.cell(r, c)).state is Opened || t.cell(
            r,
            c,
        ).field_type is Mine) {
        assert forall|i: int| 0 <= i < t.grid().len() implies (#[trigger] t.grid()[i].field_info.state
            is Opened || t.grid()[i].field_info.field_type is Mine) by {
            lemma_coords_of_idx(h, w, i);
            let r = (i / (w as int)) as i64;
            let c = (i % (w as int)) as i64;
            assert(t.grid()[idx(w, r, c)].field_info == t.cell(r, c));
        }
    }
}

} // verus!
