//! The opening protocol: flood fill over the visiter, the full-board reveal
//! on a loss, first-click mine relocation, and the public `open_field` and
//! `open_neighbors` calls.

use vstd::prelude::*;

use crate::counting::{
    count_mines, count_opened, lemma_counts_bounds, lemma_counts_update, lemma_counts_zero,
    lemma_mine_count_matches_list, mine_cell_ind, opened_ind,
};
use crate::field::{FieldOpenResult, FieldType};
use crate::geometry::{
    idx, in_bounds, is_neighbor, lemma_coords_of_idx, lemma_idx_bounds, mine_ind, nbr_mine_count,
};
use crate::results::{GameError, OpenInfo, OpenResult, OpenedFields};
use crate::table::{nbr_flag_count, BasicTable};
use crate::visiter::FieldVisiter;

verus! {

broadcast use vstd::seq_lib::group_seq_properties;

/// The cell at `(row, col)` was not opened before the call and is opened
/// after it.
pub open spec fn newly_opened(o: BasicTable, f: BasicTable, row: i64, col: i64) -> bool {
    &&& in_bounds(o.spec_height(), o.spec_width(), row, col)
    &&& !(o.cell(row, col).state is Opened)
    &&& f.cell(row, col).state is Opened
}

/// How a call that only opens cells may change the grid: no type changes, no
/// flag changes, and state changes go from `Closed` to `Opened` only.
pub open spec fn cells_monotone(o: BasicTable, f: BasicTable) -> bool {
    forall|row: i64, col: i64|
        in_bounds(o.spec_height(), o.spec_width(), row, col) ==> {
            &&& (#[trigger] f.cell(row, col)).field_type == o.cell(row, col).field_type
            &&& (o.cell(row, col).state is Opened ==> f.cell(row, col).state is Opened)
            &&& (o.cell(row, col).state is Flagged <==> f.cell(row, col).state is Flagged)
            &&& (f.cell(row, col) != o.cell(row, col) ==> o.cell(row, col).state is Closed
                && f.cell(row, col).state is Opened)
        }
}

/// Some mine was opened by the call: the losing outcome.
pub open spec fn boomed(o: BasicTable, f: BasicTable) -> bool {
    exists|p: (i64, i64)|
        #[trigger] newly_opened(o, f, p.0, p.1) && f.cell(p.0, p.1).field_type is Mine
}

/// The cell neighbors an `Empty` cell that this call opened: the way the
/// cascade reaches a cell that was not itself clicked.
pub open spec fn nbr_of_new_empty(o: BasicTable, f: BasicTable, row: i64, col: i64) -> bool {
    exists|p: (i64, i64)|
        #[trigger] newly_opened(o, f, p.0, p.1) && f.cell(p.0, p.1).field_type is Empty
            && is_neighbor(p.0, p.1, row, col)
}

/// How any open call may change cell states, relocation included: no flag
/// changes, and state changes go from `Closed` to `Opened` only. Types are
/// not constrained here because first-click relocation may move a mine.
pub open spec fn states_monotone(o: BasicTable, f: BasicTable) -> bool {
    forall|row: i64, col: i64|
        in_bounds(o.spec_height(), o.spec_width(), row, col) ==> {
            &&& (o.cell(row, col).state is Opened ==> (#[trigger] f.cell(row, col)).state
                is Opened)
            &&& (o.cell(row, col).state is Flagged <==> f.cell(row, col).state is Flagged)
            &&& (f.cell(row, col).state != o.cell(row, col).state ==> o.cell(row, col).state
                is Closed && f.cell(row, col).state is Opened)
        }
}

/// The chord precondition: the cell is opened, numbered, and exactly as many
/// of its neighbors are flagged as its number says.
pub open spec fn chord_ready(t: BasicTable, row: i64, col: i64) -> bool {
    &&& t.cell(row, col).state is Opened
    &&& t.cell(row, col).field_type is Numbered
    &&& t.cell(row, col).field_type->Numbered_0 == nbr_flag_count(
        t.grid(),
        t.spec_height(),
        t.spec_width(),
        row,
        col,
    )
}

/// A cell type agrees with a mine list: mines are free, the others carry
/// their mine-neighbor count.
pub open spec fn cell_consistent_with(
    t: FieldType,
    mines: Seq<(i64, i64)>,
    height: i64,
    width: i64,
    row: i64,
    col: i64,
) -> bool {
    match t {
        FieldType::Mine => true,
        FieldType::Empty => nbr_mine_count(mines, height, width, row, col) == 0,
        FieldType::Numbered(n) => 1 <= n <= 8 && n == nbr_mine_count(
            mines,
            height,
            width,
            row,
            col,
        ),
    }
}

/// Opening further cells never loses a witness: a cell that neighbored a
/// newly opened `Empty` cell still does after more cells open.
proof fn lemma_lift_new_empty(o: BasicTable, a: BasicTable, b: BasicTable, row: i64, col: i64)
    requires
        a.spec_height() == o.spec_height(),
        a.spec_width() == o.spec_width(),
        b.spec_height() == o.spec_height(),
        b.spec_width() == o.spec_width(),
        forall|rr: i64, cc: i64|
            in_bounds(o.spec_height(), o.spec_width(), rr, cc) ==> ((#[trigger] b.cell(
                rr,
                cc,
            )).field_type == a.cell(rr, cc).field_type && (a.cell(rr, cc).state is Opened
                ==> b.cell(rr, cc).state is Opened)),
        nbr_of_new_empty(o, a, row, col),
    ensures
        nbr_of_new_empty(o, b, row, col),
{
    let p = choose|p: (i64, i64)|
        #[trigger] newly_opened(o, a, p.0, p.1) && a.cell(p.0, p.1).field_type is Empty
            && is_neighbor(p.0, p.1, row, col);
    assert(newly_opened(o, b, p.0, p.1) && b.cell(p.0, p.1).field_type is Empty && is_neighbor(
        p.0,
        p.1,
        row,
        col,
    ));
}

/// The grid is eight-connected: a nonempty set of coordinates closed under
/// taking in-bounds neighbors holds every in-bounds coordinate. Walking from
/// a member towards the target one axis step at a time stays inside the set.
proof fn lemma_neighbor_closed_set_is_full(
    s: Seq<(i64, i64)>,
    height: i64,
    width: i64,
    from: (i64, i64),
    target: (i64, i64),
)
    requires
        in_bounds(height, width, from.0, from.1),
        in_bounds(height, width, target.0, target.1),
        s.contains(from),
        forall|p: (i64, i64), q: (i64, i64)|
            #[trigger] s.contains(p) && in_bounds(height, width, q.0, q.1) && #[trigger]
                is_neighbor(p.0, p.1, q.0, q.1) ==> s.contains(q),
    ensures
        s.contains(target),
    decreases vstd::math::abs(target.0 - from.0) + vstd::math::abs(target.1 - from.1),
{
    if from == target {
    } else {
        let next_row: i64 = if from.0 < target.0 {
            (from.0 + 1) as i64
        } else if from.0 > target.0 {
            (from.0 - 1) as i64
        } else {
            from.0
        };
        let next_col: i64 = if from.0 != target.0 {
            from.1
        } else if from.1 < target.1 {
            (from.1 + 1) as i64
        } else {
            (from.1 - 1) as i64
        };
        let step = (next_row, next_col);
        assert(is_neighbor(from.0, from.1, step.0, step.1));
        assert(in_bounds(height, width, step.0, step.1));
        assert(s.contains(step));
        lemma_neighbor_closed_set_is_full(s, height, width, step, target);
    }
}

/// On a board with no opened cell the counter is zero and, by the board
/// invariant, no cell at all is opened.
pub proof fn lemma_fresh_board_unopened(t: BasicTable)
    requires
        t.wf(),
        t.opened_count() == 0,
    ensures
        forall|rr: i64, cc: i64|
            in_bounds(t.spec_height(), t.spec_width(), rr, cc) ==> !((#[trigger] t.cell(
                rr,
                cc,
            )).state is Opened),
{
    lemma_counts_zero(t.grid());
    assert forall|rr: i64, cc: i64|
        in_bounds(t.spec_height(), t.spec_width(), rr, cc) implies !((#[trigger] t.cell(
        rr,
        cc,
    )).state is Opened) by {
        lemma_idx_bounds(t.spec_height(), t.spec_width(), rr, cc);
        assert(opened_ind(t.grid()[idx(t.spec_width(), rr, cc)]) == 0);
        if t.cell(rr, cc).state is Opened {
            assert(t.cell(rr, cc).field_type is Mine);
        }
    }
}

/// One indicator of the eight-term neighbor sum is unchanged by a mine move
/// that stays out of the cell's neighborhood.
proof fn lemma_mine_ind_unchanged(
    m1: Seq<(i64, i64)>,
    m2: Seq<(i64, i64)>,
    height: i64,
    width: i64,
    qr: i64,
    qc: i64,
    x: int,
    y: int,
    a: (i64, i64),
    b: (i64, i64),
)
    requires
        forall|p: (i64, i64)| p != a && p != b ==> (#[trigger] m1.contains(p) <==> m2.contains(p)),
        !is_neighbor(qr, qc, a.0, a.1),
        !is_neighbor(qr, qc, b.0, b.1),
        in_bounds(height, width, qr, qc),
        -1 <= x - qr <= 1,
        -1 <= y - qc <= 1,
        !(x == qr && y == qc),
    ensures
        mine_ind(m1, height, width, x, y) == mine_ind(m2, height, width, x, y),
{
    if 0 <= x < height && 0 <= y < width {
        let p = (x as i64, y as i64);
        assert(is_neighbor(qr, qc, p.0, p.1));
        assert(p != a && p != b);
        assert(m1.contains(p) <==> m2.contains(p));
    }
}

/// A cell whose own coordinate is not a neighbor of either changed mine
/// location keeps its mine-neighbor count when one mine moves.
proof fn lemma_nbr_count_unchanged(
    m1: Seq<(i64, i64)>,
    m2: Seq<(i64, i64)>,
    height: i64,
    width: i64,
    qr: i64,
    qc: i64,
    a: (i64, i64),
    b: (i64, i64),
)
    requires
        forall|p: (i64, i64)| p != a && p != b ==> (#[trigger] m1.contains(p) <==> m2.contains(p)),
        !is_neighbor(qr, qc, a.0, a.1),
        !is_neighbor(qr, qc, b.0, b.1),
        in_bounds(height, width, qr, qc),
    ensures
        nbr_mine_count(m1, height, width, qr, qc) == nbr_mine_count(m2, height, width, qr, qc),
{
    lemma_mine_ind_unchanged(m1, m2, height, width, qr, qc, qr - 1, qc - 1, a, b);
    lemma_mine_ind_unchanged(m1, m2, height, width, qr, qc, qr - 1, qc as int, a, b);
    lemma_mine_ind_unchanged(m1, m2, height, width, qr, qc, qr - 1, qc + 1, a, b);
    lemma_mine_ind_unchanged(m1, m2, height, width, qr, qc, qr as int, qc - 1, a, b);
    lemma_mine_ind_unchanged(m1, m2, height, width, qr, qc, qr as int, qc + 1, a, b);
    lemma_mine_ind_unchanged(m1, m2, height, width, qr, qc, qr + 1, qc - 1, a, b);
    lemma_mine_ind_unchanged(m1, m2, height, width, qr, qc, qr + 1, qc as int, a, b);
    lemma_mine_ind_unchanged(m1, m2, height, width, qr, qc, qr + 1, qc + 1, a, b);
    assert(mine_ind(m1, height, width, qr - 1, qc - 1) == mine_ind(
        m2,
        height,
        width,
        qr - 1,
        qc - 1,
    ));
    assert(mine_ind(m1, height, width, qr - 1, qc as int) == mine_ind(
        m2,
        height,
        width,
        qr - 1,
        qc as int,
    ));
    assert(mine_ind(m1, height, width, qr - 1, qc + 1) == mine_ind(
        m2,
        height,
        width,
        qr - 1,
        qc + 1,
    ));
    assert(mine_ind(m1, height, width, qr as int, qc - 1) == mine_ind(
        m2,
        height,
        width,
        qr as int,
        qc - 1,
    ));
    assert(mine_ind(m1, height, width, qr as int, qc + 1) == mine_ind(
        m2,
        height,
        width,
        qr as int,
        qc + 1,
    ));
    assert(mine_ind(m1, height, width, qr + 1, qc - 1) == mine_ind(
        m2,
        height,
        width,
        qr + 1,
        qc - 1,
    ));
    assert(mine_ind(m1, height, width, qr + 1, qc as int) == mine_ind(
        m2,
        height,
        width,
        qr + 1,
        qc as int,
    ));
    assert(mine_ind(m1, height, width, qr + 1, qc + 1) == mine_ind(
        m2,
        height,
        width,
        qr + 1,
        qc + 1,
    ));
}

impl BasicTable {
    /// The full-board reveal handed back on a loss: every cell's type,
    /// mines included.
    #[verifier::loop_isolation(false)]
    pub(crate) fn construct_boom_result(&self) -> (r: OpenInfo)
        requires
            self.wf(),
        ensures
            r.result is Boom,
            r.newly_opened_fields.wf(),
            r.newly_opened_fields.spec_len() == self.spec_height() * self.spec_width(),
            forall|rr: i64, cc: i64|
                #[trigger] r.newly_opened_fields.spec_contains(rr, cc) <==> in_bounds(
                    self.spec_height(),
                    self.spec_width(),
                    rr,
                    cc,
                ),
            forall|rr: i64, cc: i64|
                in_bounds(self.spec_height(), self.spec_width(), rr, cc)
                    ==> #[trigger] r.newly_opened_fields.spec_at(rr, cc) == self.cell(
                    rr,
                    cc,
                ).field_type,
    {
        let mut newly_opened_fields = OpenedFields::new();
        let height = self.height();
        let width = self.width();
        let mut row: i64 = 0;
        while row < height
            invariant
                0 <= row <= height,
                newly_opened_fields.wf(),
                newly_opened_fields.spec_len() == row * width,
                forall|rr: i64, cc: i64|
                    #[trigger] newly_opened_fields.spec_contains(rr, cc) <==> (in_bounds(
                        height,
                        width,
                        rr,
                        cc,
                    ) && rr < row),
                forall|rr: i64, cc: i64|
                    in_bounds(height, width, rr, cc) && rr < row
                        ==> #[trigger] newly_opened_fields.spec_at(rr, cc) == self.cell(
                        rr,
                        cc,
                    ).field_type,
            decreases height - row,
        {
            let mut col: i64 = 0;
            while col < width
                invariant
                    0 <= row < height,
                    0 <= col <= width,
                    newly_opened_fields.wf(),
                    newly_opened_fields.spec_len() == row * width + col,
                    forall|rr: i64, cc: i64|
                        #[trigger] newly_opened_fields.spec_contains(rr, cc) <==> (in_bounds(
                            height,
                            width,
                            rr,
                            cc,
                        ) && (rr < row || (rr == row && cc < col))),
                    forall|rr: i64, cc: i64|
                        in_bounds(height, width, rr, cc) && (rr < row || (rr == row && cc < col))
                            ==> #[trigger] newly_opened_fields.spec_at(rr, cc) == self.cell(
                            rr,
                            cc,
                        ).field_type,
                decreases width - col,
            {
                let t = self.get_field_unchecked(row, col).get_field_type();
                newly_opened_fields.insert(row, col, t);
                col = col + 1;
            }
            row = row + 1;
            proof {
                assert((row - 1) * width + width == row * width) by (nonlinear_arith);
            }
        }
        OpenInfo { result: OpenResult::Boom, newly_opened_fields }
    }

    /// Drain the visiter: open each coordinate it hands out, cascade across
    /// opened `Empty` cells, and build the mapping of newly revealed cells.
    /// A mine anywhere in the traversal makes the whole call a loss (with the
    /// full board revealed); opening the last closed non-mine cell makes it a
    /// win (with the mines revealed as well).
    #[verifier::loop_isolation(false)]
    #[verifier::rlimit(100)]
    pub(crate) fn execute_open(&mut self, visiter: &mut FieldVisiter) -> (r: OpenInfo)
        requires
            old(self).wf(),
            old(visiter).wf(),
            old(visiter).spec_height() == old(self).spec_height(),
            old(visiter).spec_width() == old(self).spec_width(),
            old(visiter).visited() == Seq::<(i64, i64)>::empty(),
            old(self).opened_count() == 0 ==> forall|p: (i64, i64)|
                #[trigger] old(visiter).to_visit().contains(p) ==> !(old(self).cell(
                    p.0,
                    p.1,
                ).field_type is Mine),
        ensures
            final(self).wf(),
            final(self).spec_height() == old(self).spec_height(),
            final(self).spec_width() == old(self).spec_width(),
            final(self).mines() == old(self).mines(),
            final(self).opened_count() >= old(self).opened_count(),
            cells_monotone(*old(self), *final(self)),
            r.result is Boom || r.result is Okay || r.result is WINNER,
            r.result is Boom <==> boomed(*old(self), *final(self)),
            !(r.result is Boom) ==> (r.result is WINNER <==> final(self).mines().len() + final(self).opened_count() == final(self).spec_height() * final(self).spec_width()),
            r.newly_opened_fields.wf(),
            r.result is Boom ==> {
                &&& r.newly_opened_fields.spec_len() == final(self).spec_height() * final(self).spec_width()
                &&& forall|rr: i64, cc: i64|
                    #[trigger] r.newly_opened_fields.spec_contains(rr, cc) <==> in_bounds(
                        final(self).spec_height(),
                        final(self).spec_width(),
                        rr,
                        cc,
                    )
            },
            !(r.result is Boom) ==> forall|rr: i64, cc: i64|
                #[trigger] r.newly_opened_fields.spec_contains(rr, cc) <==> (newly_opened(
                    *old(self),
                    *final(self),
                    rr,
                    cc,
                ) || (r.result is WINNER && final(self).mines().contains((rr, cc)))),
            forall|rr: i64, cc: i64|
                in_bounds(final(self).spec_height(), final(self).spec_width(), rr, cc)
                    && #[trigger] r.newly_opened_fields.spec_contains(rr, cc)
                    ==> r.newly_opened_fields.spec_at(rr, cc) == final(self).cell(
                    rr,
                    cc,
                ).field_type,
            forall|rr: i64, cc: i64|
                #[trigger] newly_opened(*old(self), *final(self), rr, cc) ==> (old(visiter).to_visit().contains((rr, cc)) || nbr_of_new_empty(
                    *old(self),
                    *final(self),
                    rr,
                    cc,
                )),
            forall|a: (i64, i64), b: (i64, i64)|
                #[trigger] newly_opened(*old(self), *final(self), a.0, a.1) && final(self).cell(
                    a.0,
                    a.1,
                ).field_type is Empty && in_bounds(
                    old(self).spec_height(),
                    old(self).spec_width(),
                    b.0,
                    b.1,
                ) && #[trigger] is_neighbor(a.0, a.1, b.0, b.1) && old(self).cell(
                    b.0,
                    b.1,
                ).state is Closed ==> final(self).cell(b.0, b.1).state is Opened,
            forall|p: (i64, i64)|
                #[trigger] old(visiter).to_visit().contains(p) && old(self).cell(
                    p.0,
                    p.1,
                ).state is Closed ==> final(self).cell(p.0, p.1).state is Opened,
            (forall|p: (i64, i64)|
                #[trigger] old(visiter).to_visit().contains(p) ==> (old(self).cell(
                    p.0,
                    p.1,
                ).state is Opened || old(self).cell(p.0, p.1).state is Flagged)) ==> (final(self).grid() == old(self).grid() && final(self).opened_count() == old(self).opened_count()),
    {
        let ghost o = *old(self);
        let ghost init_tv = old(visiter).to_visit();
        let height = self.height();
        let width = self.width();
        let mut newly_opened_fields = OpenedFields::new();
        let mut has_boomed = false;
        while visiter.has_next()
            invariant
                self.wf(),
                visiter.wf(),
                self.spec_height() == height,
                self.spec_width() == width,
                visiter.spec_height() == height,
                visiter.spec_width() == width,
                self.mines() == o.mines(),
                self.opened_count() >= o.opened_count(),
                cells_monotone(o, *self),
                newly_opened_fields.wf(),
                forall|rr: i64, cc: i64|
                    #[trigger] newly_opened_fields.spec_contains(rr, cc) <==> newly_opened(
                        o,
                        *self,
                        rr,
                        cc,
                    ),
                forall|rr: i64, cc: i64|
                    #[trigger] newly_opened(o, *self, rr, cc)
                        ==> newly_opened_fields.spec_at(rr, cc) == self.cell(rr, cc).field_type,
                has_boomed <==> boomed(o, *self),
                forall|rr: i64, cc: i64|
                    #[trigger] newly_opened(o, *self, rr, cc) ==> (init_tv.contains((rr, cc))
                        || nbr_of_new_empty(o, *self, rr, cc)),
                forall|p: (i64, i64)|
                    #[trigger] visiter.to_visit().contains(p) ==> (init_tv.contains(p)
                        || nbr_of_new_empty(o, *self, p.0, p.1)),
                forall|p: (i64, i64)|
                    #[trigger] init_tv.contains(p) ==> (visiter.to_visit().contains(p)
                        || visiter.visited().contains(p)),
                forall|p: (i64, i64)|
                    #[trigger] visiter.visited().contains(p) && o.cell(p.0, p.1).state is Closed
                        ==> self.cell(p.0, p.1).state is Opened,
                forall|a: (i64, i64), b: (i64, i64)|
                    #[trigger] newly_opened(o, *self, a.0, a.1) && self.cell(
                        a.0,
                        a.1,
                    ).field_type is Empty && in_bounds(height, width, b.0, b.1)
                        && #[trigger] is_neighbor(a.0, a.1, b.0, b.1) ==> (
                    visiter.visited().contains(b) || visiter.to_visit().contains(b)),
                (forall|p: (i64, i64)|
                    #[trigger] init_tv.contains(p) ==> (o.cell(p.0, p.1).state is Opened || o.cell(
                        p.0,
                        p.1,
                    ).state is Flagged)) ==> (self.grid() == o.grid() && self.opened_count()
                    == o.opened_count() && forall|p: (i64, i64)|
                    #[trigger] visiter.to_visit().contains(p) ==> init_tv.contains(p)),
                o.opened_count() == 0 ==> forall|p: (i64, i64)|
                    #[trigger] visiter.to_visit().contains(p) ==> !(self.cell(
                        p.0,
                        p.1,
                    ).field_type is Mine),
            decreases height * width - visiter.visited().len(),
        {
            let ghost s0 = *self;
            let ghost tv0 = visiter.to_visit();
            proof {
                crate::counting::lemma_distinct_coords_bound(visiter.visited(), height, width);
                if tv0.len() > 0 {
                    let q = tv0.last();
                    assert(tv0.contains(q));
                }
            }
            let next = visiter.next();
            match next {
                None => {
                    proof {
                        assert(false);
                    }
                },
                Some((row, col)) => {
                    let ghost mid = *self;
                    proof {
                        assert(tv0.contains((row, col))) by {
                            assert(tv0.last() == (row, col));
                        }
                        assert(init_tv.contains((row, col)) || nbr_of_new_empty(
                            o,
                            mid,
                            row,
                            col,
                        ));
                        if o.opened_count() == 0 {
                            assert(!(mid.cell(row, col).field_type is Mine));
                        }
                        lemma_idx_bounds(height, width, row, col);
                    }
                    let mut f = self.get_field_unchecked(row, col);
                    let open_result = f.open();
                    match open_result {
                        FieldOpenResult::MultiOpen | FieldOpenResult::SimpleOpen => {
                            proof {
                                lemma_counts_bounds(self.grid());
                                lemma_idx_bounds(height, width, row, col);
                            }
                            self.set_field_unchecked(row, col, f);
                            self.increment_opened_count();
                            proof {
                                lemma_counts_update(
                                    mid.grid(),
                                    idx(width, row, col),
                                    f,
                                );
                                assert(self.grid() == mid.grid().update(
                                    idx(width, row, col),
                                    f,
                                ));
                                assert forall|rr: i64, cc: i64|
                                    in_bounds(height, width, rr, cc) && (rr, cc) != (row, col)
                                        implies #[trigger] self.cell(rr, cc) == mid.cell(
                                    rr,
                                    cc,
                                ) by {
                                    lemma_idx_bounds(height, width, rr, cc);
                                    if idx(width, rr, cc) == idx(width, row, col) {
                                        crate::geometry::lemma_idx_injective(
                                            height,
                                            width,
                                            rr,
                                            cc,
                                            row,
                                            col,
                                        );
                                    }
                                }
                                assert(self.cell(row, col) == f.field_info);
                                assert(f.field_info.field_type == mid.cell(row, col).field_type);
                                assert(mid.grid()[idx(width, row, col)].field_info == mid.cell(
                                    row,
                                    col,
                                ));
                                assert(opened_ind(mid.grid()[idx(width, row, col)]) == 0);
                                assert(opened_ind(f) == 1);
                                assert(mine_cell_ind(f) == mine_cell_ind(
                                    mid.grid()[idx(width, row, col)],
                                ));
                                assert((mid.cell(row, col).field_type is Mine)
                                    <==> mid.mines().contains((row, col)));
                                assert(self.wf()) by {
                                    assert forall|rr: i64, cc: i64|
                                        in_bounds(height, width, rr, cc) implies ((
                                    #[trigger] self.cell(rr, cc).field_type is Mine)
                                        <==> self.mines().contains((rr, cc))) by {
                                        if (rr, cc) != (row, col) {
                                            assert(self.cell(rr, cc) == mid.cell(rr, cc));
                                        }
                                    }
                                    assert forall|rr: i64, cc: i64|
                                        in_bounds(height, width, rr, cc)
                                            implies match #[trigger] self.cell(
                                        rr,
                                        cc,
                                    ).field_type {
                                        FieldType::Mine => true,
                                        FieldType::Empty => nbr_mine_count(
                                            self.mines(),
                                            height,
                                            width,
                                            rr,
                                            cc,
                                        ) == 0,
                                        FieldType::Numbered(n) => 1 <= n <= 8 && n
                                            == nbr_mine_count(
                                            self.mines(),
                                            height,
                                            width,
                                            rr,
                                            cc,
                                        ),
                                    } by {
                                        if (rr, cc) != (row, col) {
                                            assert(self.cell(rr, cc) == mid.cell(rr, cc));
                                        } else {
                                            assert(self.cell(rr, cc).field_type == mid.cell(
                                                rr,
                                                cc,
                                            ).field_type);
                                        }
                                    }
                                    assert forall|rr: i64, cc: i64|
                                        in_bounds(height, width, rr, cc) && (#[trigger] self.cell(
                                            rr,
                                            cc,
                                        ).state is Opened) && self.cell(rr, cc).field_type is Mine
                                        implies self.opened_count() >= 1 by {
                                        if (rr, cc) != (row, col) {
                                            assert(self.cell(rr, cc) == mid.cell(rr, cc));
                                        }
                                    }
                                }
                                assert(newly_opened(o, *self, row, col));
                                assert(!newly_opened(o, mid, row, col));
                            }
                            if matches!(open_result, FieldOpenResult::MultiOpen) {
                                visiter.extend_with_unvisited_neighbors(row, col);
                                proof {
                                    assert forall|p: (i64, i64)|
                                        #[trigger] visiter.to_visit().contains(p) && is_neighbor(
                                            row,
                                            col,
                                            p.0,
                                            p.1,
                                        ) && in_bounds(height, width, p.0, p.1) implies !(
                                    self.cell(p.0, p.1).field_type is Mine) by {
                                        lemma_mine_free_neighborhood(*self, row, col, p.0, p.1);
                                    }
                                }
                            }
                            newly_opened_fields.insert(row, col, f.get_field_type());
                        },
                        FieldOpenResult::Boom => {
                            proof {
                                lemma_idx_bounds(height, width, row, col);
                            }
                            self.set_field_unchecked(row, col, f);
                            proof {
                                lemma_counts_update(
                                    mid.grid(),
                                    idx(width, row, col),
                                    f,
                                );
                                assert(self.grid() == mid.grid().update(
                                    idx(width, row, col),
                                    f,
                                ));
                                assert forall|rr: i64, cc: i64|
                                    in_bounds(height, width, rr, cc) && (rr, cc) != (row, col)
                                        implies #[trigger] self.cell(rr, cc) == mid.cell(
                                    rr,
                                    cc,
                                ) by {
                                    lemma_idx_bounds(height, width, rr, cc);
                                    if idx(width, rr, cc) == idx(width, row, col) {
                                        crate::geometry::lemma_idx_injective(
                                            height,
                                            width,
                                            rr,
                                            cc,
                                            row,
                                            col,
                                        );
                                    }
                                }
                                assert(self.cell(row, col) == f.field_info);
                                assert(f.field_info.field_type == mid.cell(row, col).field_type);
                                assert(f.field_info.field_type is Mine);
                                lemma_counts_bounds(o.grid());
                                assert(o.opened_count() >= 1);
                                assert(mid.grid()[idx(width, row, col)].field_info == mid.cell(
                                    row,
                                    col,
                                ));
                                assert(opened_ind(mid.grid()[idx(width, row, col)]) == 0);
                                assert(opened_ind(f) == 0);
                                assert(mine_cell_ind(f) == mine_cell_ind(
                                    mid.grid()[idx(width, row, col)],
                                ));
                                assert((mid.cell(row, col).field_type is Mine)
                                    <==> mid.mines().contains((row, col)));
                                assert(self.wf()) by {
                                    assert forall|rr: i64, cc: i64|
                                        in_bounds(height, width, rr, cc) implies ((
                                    #[trigger] self.cell(rr, cc).field_type is Mine)
                                        <==> self.mines().contains((rr, cc))) by {
                                        if (rr, cc) != (row, col) {
                                            assert(self.cell(rr, cc) == mid.cell(rr, cc));
                                        }
                                    }
                                    assert forall|rr: i64, cc: i64|
                                        in_bounds(height, width, rr, cc)
                                            implies match #[trigger] self.cell(
                                        rr,
                                        cc,
                                    ).field_type {
                                        FieldType::Mine => true,
                                        FieldType::Empty => nbr_mine_count(
                                            self.mines(),
                                            height,
                                            width,
                                            rr,
                                            cc,
                                        ) == 0,
                                        FieldType::Numbered(n) => 1 <= n <= 8 && n
                                            == nbr_mine_count(
                                            self.mines(),
                                            height,
                                            width,
                                            rr,
                                            cc,
                                        ),
                                    } by {
                                        if (rr, cc) != (row, col) {
                                            assert(self.cell(rr, cc) == mid.cell(rr, cc));
                                        } else {
                                            assert(self.cell(rr, cc).field_type == mid.cell(
                                                rr,
                                                cc,
                                            ).field_type);
                                        }
                                    }
                                }
                                assert(newly_opened(o, *self, row, col));
                                assert(boomed(o, *self));
                                assert(!newly_opened(o, mid, row, col));
                            }
                            has_boomed = true;
                            newly_opened_fields.insert(row, col, f.get_field_type());
                        },
                        FieldOpenResult::AlreadyOpened | FieldOpenResult::IsFlagged => {},
                    }
                    proof {
                        crate::counting::lemma_distinct_coords_bound(
                            visiter.visited(),
                            height,
                            width,
                        );
                        let cur = *self;
                        assert forall|rr: i64, cc: i64|
                            in_bounds(height, width, rr, cc) && (rr, cc) != (row, col)
                                implies #[trigger] cur.cell(rr, cc) == mid.cell(rr, cc) by {
                            if cur.grid() != mid.grid() {
                                lemma_idx_bounds(height, width, rr, cc);
                                if idx(width, rr, cc) == idx(width, row, col) {
                                    crate::geometry::lemma_idx_injective(
                                        height,
                                        width,
                                        rr,
                                        cc,
                                        row,
                                        col,
                                    );
                                }
                            }
                        }
                        assert(cur.cell(row, col).field_type == mid.cell(row, col).field_type);
                        assert forall|rr: i64, cc: i64|
                            in_bounds(height, width, rr, cc) implies ((#[trigger] cur.cell(
                            rr,
                            cc,
                        )).field_type == mid.cell(rr, cc).field_type && (mid.cell(
                            rr,
                            cc,
                        ).state is Opened ==> cur.cell(rr, cc).state is Opened)) by {}
                        assert forall|rr: i64, cc: i64|
                            #[trigger] newly_opened(o, cur, rr, cc) && !newly_opened(
                                o,
                                mid,
                                rr,
                                cc,
                            ) implies (rr, cc) == (row, col) by {}
                        // the soundness of the cascade: every newly opened cell was asked
                        // for or neighbors a newly opened empty cell
                        assert forall|rr: i64, cc: i64|
                            #[trigger] newly_opened(o, cur, rr, cc) implies (init_tv.contains(
                            (rr, cc),
                        ) || nbr_of_new_empty(o, cur, rr, cc)) by {
                            if newly_opened(o, mid, rr, cc) {
                                if nbr_of_new_empty(o, mid, rr, cc) {
                                    lemma_lift_new_empty(o, mid, cur, rr, cc);
                                }
                            } else {
                                assert((rr, cc) == (row, col));
                                if nbr_of_new_empty(o, mid, row, col) {
                                    lemma_lift_new_empty(o, mid, cur, row, col);
                                }
                            }
                        }
                        // the work list stays sound
                        assert forall|p: (i64, i64)| #[trigger]
                            visiter.to_visit().contains(p) implies (init_tv.contains(p)
                            || nbr_of_new_empty(o, cur, p.0, p.1)) by {
                            if tv0.drop_last().contains(p) {
                                let i = choose|i: int|
                                    0 <= i < tv0.drop_last().len() && tv0.drop_last()[i] == p;
                                assert(tv0[i] == p);
                                assert(tv0.contains(p));
                                if nbr_of_new_empty(o, mid, p.0, p.1) {
                                    lemma_lift_new_empty(o, mid, cur, p.0, p.1);
                                }
                            } else {
                                assert(is_neighbor(row, col, p.0, p.1) && in_bounds(
                                    height,
                                    width,
                                    p.0,
                                    p.1,
                                ));
                                let w = (row, col);
                                assert(newly_opened(o, cur, w.0, w.1) && cur.cell(
                                    w.0,
                                    w.1,
                                ).field_type is Empty && is_neighbor(w.0, w.1, p.0, p.1));
                            }
                        }
                        // every coordinate asked for is handed out exactly once
                        assert forall|p: (i64, i64)| #[trigger]
                            init_tv.contains(p) implies (visiter.to_visit().contains(p)
                            || visiter.visited().contains(p)) by {
                            if tv0.contains(p) {
                                if p == (row, col) {
                                    assert(visiter.visited().contains(p)) by {
                                        assert(visiter.visited().last() == p);
                                    }
                                } else {
                                    let i = choose|i: int| 0 <= i < tv0.len() && tv0[i] == p;
                                    assert(i < tv0.len() - 1);
                                    assert(tv0.drop_last()[i] == p);
                                    assert(tv0.drop_last().contains(p));
                                    assert(visiter.to_visit().contains(p));
                                }
                            }
                        }
                        // the frontier of every opened empty cell stays on the
                        // work list or is already handed out
                        assert forall|a: (i64, i64), b: (i64, i64)|
                            #[trigger] newly_opened(o, cur, a.0, a.1) && cur.cell(
                                a.0,
                                a.1,
                            ).field_type is Empty && in_bounds(height, width, b.0, b.1)
                                && #[trigger] is_neighbor(a.0, a.1, b.0, b.1) implies (
                        visiter.visited().contains(b) || visiter.to_visit().contains(b)) by {
                            if visiter.visited().contains(b) {
                            } else if newly_opened(o, mid, a.0, a.1) {
                                assert(mid.cell(a.0, a.1).field_type == cur.cell(
                                    a.0,
                                    a.1,
                                ).field_type);
                                if tv0.contains(b) {
                                    if b == (row, col) {
                                        assert(visiter.visited().contains(b)) by {
                                            assert(visiter.visited().last() == b);
                                        }
                                    } else {
                                        let j = choose|j: int| 0 <= j < tv0.len() && tv0[j] == b;
                                        assert(j < tv0.len() - 1);
                                        assert(tv0.drop_last()[j] == b);
                                        assert(tv0.drop_last().contains(b));
                                        assert(visiter.to_visit().contains(b));
                                    }
                                }
                            } else {
                                assert((a.0, a.1) == (row, col));
                                assert(cur.cell(row, col).field_type is Empty);
                            }
                        }
                        // a handed-out closed cell is opened
                        assert(cur.cell(row, col).state is Opened || !(o.cell(
                            row,
                            col,
                        ).state is Closed));
                        assert forall|p: (i64, i64)| #[trigger]
                            visiter.visited().contains(p) && o.cell(p.0, p.1).state is Closed
                            implies cur.cell(p.0, p.1).state is Opened by {
                            if p != (row, col) {
                                let i = choose|i: int|
                                    0 <= i < visiter.visited().len() && visiter.visited()[i] == p;
                                assert(visiter.visited().drop_last()[i] == p);
                                assert(mid.cell(p.0, p.1).state is Opened);
                            }
                        }
                        // the mapping carries the type now on the board
                        assert forall|rr: i64, cc: i64|
                            #[trigger] newly_opened(o, cur, rr, cc)
                                implies newly_opened_fields.spec_at(rr, cc) == cur.cell(
                            rr,
                            cc,
                        ).field_type by {
                            if (rr, cc) != (row, col) {
                                assert(newly_opened(o, mid, rr, cc));
                            }
                        }
                        // the loss flag tracks exactly whether a mine was opened
                        assert(has_boomed <==> boomed(o, cur)) by {
                            if has_boomed {
                                if boomed(o, mid) {
                                    let p = choose|p: (i64, i64)|
                                        #[trigger] newly_opened(o, mid, p.0, p.1) && mid.cell(
                                            p.0,
                                            p.1,
                                        ).field_type is Mine;
                                    assert(newly_opened(o, cur, p.0, p.1) && cur.cell(
                                        p.0,
                                        p.1,
                                    ).field_type is Mine);
                                }
                            }
                            if boomed(o, cur) && !has_boomed {
                                let p = choose|p: (i64, i64)|
                                    #[trigger] newly_opened(o, cur, p.0, p.1) && cur.cell(
                                        p.0,
                                        p.1,
                                    ).field_type is Mine;
                                if newly_opened(o, mid, p.0, p.1) {
                                    assert(mid.cell(p.0, p.1).field_type is Mine);
                                    assert(boomed(o, mid));
                                } else {
                                    assert(p == (row, col));
                                }
                                assert(false);
                            }
                        }
                        // a fresh board keeps mines out of the work list
                        if o.opened_count() == 0 {
                            assert forall|p: (i64, i64)| #[trigger]
                                visiter.to_visit().contains(p) implies !(cur.cell(
                                p.0,
                                p.1,
                            ).field_type is Mine) by {
                                if tv0.drop_last().contains(p) {
                                    let i = choose|i: int|
                                        0 <= i < tv0.drop_last().len() && tv0.drop_last()[i]
                                            == p;
                                    assert(tv0[i] == p);
                                    assert(tv0.contains(p));
                                    assert(!(mid.cell(p.0, p.1).field_type is Mine));
                                } else {
                                    assert(is_neighbor(row, col, p.0, p.1) && in_bounds(
                                        height,
                                        width,
                                        p.0,
                                        p.1,
                                    ));
                                    lemma_mine_free_neighborhood(cur, row, col, p.0, p.1);
                                }
                            }
                        }
                        // nothing changes when everything asked for was already settled
                        if forall|p: (i64, i64)|
                            #[trigger] init_tv.contains(p) ==> (o.cell(p.0, p.1).state is Opened
                                || o.cell(p.0, p.1).state is Flagged) {
                            assert(init_tv.contains((row, col)));
                            assert(mid.cell(row, col) == o.cell(row, col));
                            assert(cur.grid() == o.grid() && cur.opened_count()
                                == o.opened_count());
                            assert forall|p: (i64, i64)| #[trigger]
                                visiter.to_visit().contains(p) implies init_tv.contains(p) by {
                                if tv0.drop_last().contains(p) {
                                    let i = choose|i: int|
                                        0 <= i < tv0.drop_last().len() && tv0.drop_last()[i]
                                            == p;
                                    assert(tv0[i] == p);
                                    assert(tv0.contains(p));
                                }
                            }
                        }
                    }
                },
            }
        }
        if has_boomed {
            return self.construct_boom_result();
        }
        if self.all_fields_are_open() {
            let n_mines = self.mine_locations_len();
            let mut i: usize = 0;
            while i < n_mines
                invariant
                    n_mines == self.mines().len(),
                    0 <= i <= n_mines,
                    newly_opened_fields.wf(),
                    !boomed(o, *self),
                    forall|rr: i64, cc: i64|
                        #[trigger] newly_opened_fields.spec_contains(rr, cc) <==> (newly_opened(
                            o,
                            *self,
                            rr,
                            cc,
                        ) || (exists|j: int| 0 <= j < i && self.mines()[j] == (rr, cc))),
                    forall|rr: i64, cc: i64|
                        in_bounds(height, width, rr, cc)
                            && #[trigger] newly_opened_fields.spec_contains(rr, cc)
                            ==> newly_opened_fields.spec_at(rr, cc) == self.cell(
                            rr,
                            cc,
                        ).field_type,
                decreases n_mines - i,
            {
                let p = self.mine_location_at(i);
                proof {
                    assert(self.mines().contains(p));
                    if newly_opened_fields.spec_contains(p.0, p.1) {
                        if newly_opened(o, *self, p.0, p.1) {
                            assert(boomed(o, *self));
                        } else {
                            let j = choose|j: int| 0 <= j < i && self.mines()[j] == p;
                            assert(self.mines()[j] == self.mines()[i as int]);
                            assert(!self.mines().no_duplicates());
                        }
                        assert(false);
                    }
                }
                newly_opened_fields.insert(p.0, p.1, FieldType::Mine);
                i = i + 1;
                proof {
                    assert forall|rr: i64, cc: i64|
                        #[trigger] newly_opened_fields.spec_contains(rr, cc) implies (newly_opened(
                            o,
                            *self,
                            rr,
                            cc,
                        ) || (exists|j: int| 0 <= j < i && self.mines()[j] == (rr, cc))) by {
                        if (rr, cc) == p {
                            assert(self.mines()[i - 1] == (rr, cc));
                        }
                    }
                }
            }
            proof {
                assert forall|rr: i64, cc: i64|
                    #[trigger] newly_opened_fields.spec_contains(rr, cc) implies (newly_opened(
                        o,
                        *self,
                        rr,
                        cc,
                    ) || self.mines().contains((rr, cc))) by {
                    if !newly_opened(o, *self, rr, cc) {
                        let j = choose|j: int|
                            0 <= j < n_mines && self.mines()[j] == (rr, cc);
                    }
                }
            }
            OpenInfo { result: OpenResult::WINNER, newly_opened_fields }
        } else {
            OpenInfo { result: OpenResult::Okay, newly_opened_fields }
        }
    }

    /// First-click safety: when the very first open of the game lands on a
    /// mine, move that mine to the nearest non-mine cell (searching outward
    /// from the click) and recompute the mine-neighbor counts around both
    /// places. Nothing has been opened yet, so no revealed information
    /// changes; a non-mine click is a no-op. The call always succeeds: the
    /// search could only exhaust if every cell were a mine, and the board
    /// invariant keeps at least one cell free, so the `NoRelocationTarget`
    /// branch is proved unreachable.
    #[verifier::loop_isolation(false)]
    #[verifier::rlimit(100)]
    pub(crate) fn move_mine(&mut self, row: i64, col: i64) -> (r: Result<(), GameError>)
        requires
            old(self).wf(),
            in_bounds(old(self).spec_height(), old(self).spec_width(), row, col),
            old(self).opened_count() == 0,
        ensures
            r is Ok,
            final(self).wf(),
            final(self).spec_height() == old(self).spec_height(),
            final(self).spec_width() == old(self).spec_width(),
            final(self).opened_count() == 0,
            final(self).mines().len() == old(self).mines().len(),
            !(final(self).cell(row, col).field_type is Mine),
            forall|rr: i64, cc: i64|
                in_bounds(old(self).spec_height(), old(self).spec_width(), rr, cc) ==> (
                #[trigger] final(self).cell(rr, cc)).state == old(self).cell(rr, cc).state,
            !(old(self).cell(row, col).field_type is Mine) ==> *final(self) == *old(self),
            old(self).cell(row, col).field_type is Mine ==> (exists|q: (i64, i64)|
                {
                    &&& #[trigger] in_bounds(old(self).spec_height(), old(self).spec_width(), q.0, q.1)
                    &&& !old(self).mines().contains(q)
                    &&& forall|p: (i64, i64)|
                        #[trigger] final(self).mines().contains(p) <==> ((old(self).mines().contains(p) && p != (row, col)) || p == q)
                    &&& forall|p: (i64, i64)|
                        in_bounds(old(self).spec_height(), old(self).spec_width(), p.0, p.1) && p
                            != (row, col) && p != q && !is_neighbor(row, col, p.0, p.1)
                            && !is_neighbor(q.0, q.1, p.0, p.1) ==> #[trigger] final(self).cell(
                            p.0,
                            p.1,
                        ) == old(self).cell(p.0, p.1)
                }),
    {
        let ghost o = *old(self);
        let height = self.height();
        let width = self.width();
        let f0 = self.get_field_unchecked(row, col);
        if !f0.get_field_type().is_mine() {
            return Ok(());
        }
        let mut visiter = match FieldVisiter::new(height, width, row, col) {
            Ok(v) => v,
            Err(e) => {
                // unreachable: the click is in bounds
                proof {
                    assert(false);
                }
                return Err(e);
            },
        };
        let mut new_place: (i64, i64) = (0, 0);
        let mut found = false;
        while !found && visiter.has_next()
            invariant
                visiter.wf(),
                visiter.spec_height() == height,
                visiter.spec_width() == width,
                found ==> (in_bounds(height, width, new_place.0, new_place.1) && !(self.cell(
                    new_place.0,
                    new_place.1,
                ).field_type is Mine)),
                visiter.visited().contains((row, col)) || visiter.to_visit().contains(
                    (row, col),
                ),
                !found ==> forall|p: (i64, i64)|
                    #[trigger] visiter.visited().contains(p) ==> self.cell(
                        p.0,
                        p.1,
                    ).field_type is Mine,
                !found ==> forall|p: (i64, i64), q: (i64, i64)|
                    #[trigger] visiter.visited().contains(p) && in_bounds(height, width, q.0, q.1)
                        && #[trigger] is_neighbor(p.0, p.1, q.0, q.1) ==> (
                    visiter.visited().contains(q) || visiter.to_visit().contains(q)),
            decreases height * width - visiter.visited().len(),
        {
            let ghost tv0 = visiter.to_visit();
            proof {
                crate::counting::lemma_distinct_coords_bound(visiter.visited(), height, width);
                if tv0.len() > 0 {
                    let q = tv0.last();
                    assert(tv0.contains(q));
                }
            }
            let next = visiter.next();
            match next {
                None => {
                    proof {
                        assert(false);
                    }
                },
                Some((vr, vc)) => {
                    let fc = self.get_field_unchecked(vr, vc);
                    if !fc.get_field_type().is_mine() {
                        new_place = (vr, vc);
                        found = true;
                    } else {
                        visiter.extend_with_unvisited_neighbors(vr, vc);
                    }
                    proof {
                        assert(visiter.visited().contains((vr, vc))) by {
                            assert(visiter.visited().last() == (vr, vc));
                        }
                        assert forall|p: (i64, i64)| #[trigger]
                            visiter.visited().contains(p) implies (p == (vr, vc)
                            || tv0.drop_last().contains(p) || visiter.visited().drop_last().contains(
                            p,
                        ) || visiter.visited().contains(p)) by {}
                        if !found {
                            assert forall|p: (i64, i64), q: (i64, i64)|
                                #[trigger] visiter.visited().contains(p) && in_bounds(
                                    height,
                                    width,
                                    q.0,
                                    q.1,
                                ) && #[trigger] is_neighbor(p.0, p.1, q.0, q.1) implies (
                            visiter.visited().contains(q) || visiter.to_visit().contains(q)) by {
                                let i = choose|i: int|
                                    0 <= i < visiter.visited().len() && visiter.visited()[i]
                                        == p;
                                if i < visiter.visited().len() - 1 {
                                    assert(visiter.visited().drop_last()[i] == p);
                                    assert(visiter.visited().drop_last().contains(p));
                                    if tv0.drop_last().contains(q) {
                                        let j = choose|j: int|
                                            0 <= j < tv0.drop_last().len() && tv0.drop_last()[j]
                                                == q;
                                        assert(tv0[j] == q);
                                        assert(tv0.contains(q));
                                    }
                                } else {
                                    assert(p == (vr, vc));
                                }
                            }
                        }
                        if visiter.to_visit().contains((row, col)) || visiter.visited().contains(
                            (row, col),
                        ) {
                        } else {
                            assert(tv0.contains((row, col)));
                            let j = choose|j: int| 0 <= j < tv0.len() && tv0[j] == (row, col);
                            assert(j < tv0.len() - 1 ==> tv0.drop_last()[j] == (row, col));
                            assert(j == tv0.len() - 1 ==> (row, col) == (vr, vc));
                            assert(false);
                        }
                    }
                },
            }
            proof {
                crate::counting::lemma_distinct_coords_bound(visiter.visited(), height, width);
            }
        }
        if !found {
            proof {
                assert(visiter.to_visit().len() == 0);
                assert(visiter.visited().contains((row, col)));
                assert forall|p: (i64, i64), q: (i64, i64)|
                    #[trigger] visiter.visited().contains(p) && in_bounds(height, width, q.0, q.1)
                        && #[trigger] is_neighbor(p.0, p.1, q.0, q.1) implies
                    visiter.visited().contains(q) by {}
                assert forall|rr: i64, cc: i64|
                    in_bounds(height, width, rr, cc) implies #[trigger] visiter.visited().contains(
                    (rr, cc),
                ) by {
                    lemma_neighbor_closed_set_is_full(
                        visiter.visited(),
                        height,
                        width,
                        (row, col),
                        (rr, cc),
                    );
                }
                assert(count_mines(self.grid()) == self.grid().len()) by {
                    crate::counting::lemma_mines_full(self.grid());
                    assert forall|i: int| 0 <= i < self.grid().len() implies (
                    #[trigger] self.grid()[i]).field_info.field_type is Mine by {
                        lemma_coords_of_idx(height, width, i);
                        let rr = (i / (width as int)) as i64;
                        let cc = (i % (width as int)) as i64;
                        assert(visiter.visited().contains((rr, cc)));
                        assert(self.grid()[idx(width, rr, cc)].field_info == self.cell(rr, cc));
                    }
                }
                assert(false);
            }
            return Err(GameError::NoRelocationTarget);
        }
        proof {
            lemma_fresh_board_unopened(*self);
            assert(self.mines().contains((row, col)));
            assert(!self.mines().contains((new_place.0, new_place.1)));
        }
        let ghost old_mines = self.mines();
        // place the mine at its new cell, clear the clicked cell
        let mut fm = self.get_field_unchecked(new_place.0, new_place.1);
        match fm.update_type_to_mine() {
            Ok(_) => {},
            Err(_) => {
                proof {
                    assert(false);
                }
            },
        }
        self.set_field_unchecked(new_place.0, new_place.1, fm);
        let mut forig = self.get_field_unchecked(row, col);
        match forig.update_type_to_empty() {
            Ok(_) => {},
            Err(_) => {
                proof {
                    assert(false);
                }
            },
        }
        self.set_field_unchecked(row, col, forig);
        self.swap_mine_location(row, col, new_place.0, new_place.1);
        let ghost s1 = *self;
        proof {
            assert forall|rr: i64, cc: i64|
                in_bounds(height, width, rr, cc) && (rr, cc) != (row, col) && (rr, cc) != (
                new_place.0,
                new_place.1,
            ) implies #[trigger] s1.cell(rr, cc) == o.cell(rr, cc) by {
                lemma_idx_bounds(height, width, rr, cc);
                lemma_idx_bounds(height, width, row, col);
                lemma_idx_bounds(height, width, new_place.0, new_place.1);
                if idx(width, rr, cc) == idx(width, row, col) {
                    crate::geometry::lemma_idx_injective(height, width, rr, cc, row, col);
                }
                if idx(width, rr, cc) == idx(width, new_place.0, new_place.1) {
                    crate::geometry::lemma_idx_injective(
                        height,
                        width,
                        rr,
                        cc,
                        new_place.0,
                        new_place.1,
                    );
                }
            }
            lemma_idx_bounds(height, width, row, col);
            lemma_idx_bounds(height, width, new_place.0, new_place.1);
            assert((row, col) != (new_place.0, new_place.1));
            assert(idx(width, row, col) != idx(width, new_place.0, new_place.1)) by {
                if idx(width, row, col) == idx(width, new_place.0, new_place.1) {
                    crate::geometry::lemma_idx_injective(
                        height,
                        width,
                        row,
                        col,
                        new_place.0,
                        new_place.1,
                    );
                }
            }
            assert(s1.cell(row, col).field_type is Empty);
            assert(s1.cell(row, col).state == o.cell(row, col).state);
            assert(s1.cell(new_place.0, new_place.1).field_type is Mine);
            assert(s1.cell(new_place.0, new_place.1).state == o.cell(
                new_place.0,
                new_place.1,
            ).state);
        }
        // recompute the mine-neighbor counts of every cell whose count could
        // have changed: the neighborhoods of both places, and the clicked cell
        let mut fields_to_recalculate = self.get_neighbor_fields(row, col);
        let more = self.get_neighbor_fields(new_place.0, new_place.1);
        proof {
            assert forall|j: int|
                0 <= j < fields_to_recalculate@.len() implies in_bounds(
                height,
                width,
                #[trigger] fields_to_recalculate@[j].0,
                fields_to_recalculate@[j].1,
            ) by {
                assert(fields_to_recalculate@.contains(fields_to_recalculate@[j]));
            }
        }
        let more_len = more.len();
        let mut k: usize = 0;
        while k < more_len
            invariant
                more_len == more@.len(),
                0 <= k <= more_len,
                forall|j: int|
                    0 <= j < fields_to_recalculate@.len() ==> in_bounds(
                        height,
                        width,
                        #[trigger] fields_to_recalculate@[j].0,
                        fields_to_recalculate@[j].1,
                    ),
                forall|p: (i64, i64)|
                    (in_bounds(height, width, p.0, p.1) && is_neighbor(row, col, p.0, p.1))
                        ==> #[trigger] fields_to_recalculate@.contains(p),
                forall|j: int|
                    0 <= j < k ==> fields_to_recalculate@.contains(#[trigger] more@[j]),
                forall|p: (i64, i64)|
                    #[trigger] fields_to_recalculate@.contains(p) ==> (is_neighbor(
                        row,
                        col,
                        p.0,
                        p.1,
                    ) || is_neighbor(new_place.0, new_place.1, p.0, p.1)),
            decreases more_len - k,
        {
            let p = more[k];
            let ghost before = fields_to_recalculate@;
            proof {
                assert(more@.contains(p));
            }
            fields_to_recalculate.push(p);
            k = k + 1;
            proof {
                assert forall|p2: (i64, i64)| #[trigger]
                    fields_to_recalculate@.contains(p2) implies (is_neighbor(
                    row,
                    col,
                    p2.0,
                    p2.1,
                ) || is_neighbor(new_place.0, new_place.1, p2.0, p2.1)) by {
                    let j = choose|j: int|
                        0 <= j < fields_to_recalculate@.len() && fields_to_recalculate@[j] == p2;
                    if j < before.len() {
                        assert(before[j] == p2);
                        assert(before.contains(p2));
                    } else {
                        assert(p2 == p);
                    }
                }
            }
        }
        let ghost before_center = fields_to_recalculate@;
        fields_to_recalculate.push((row, col));
        proof {
            assert(fields_to_recalculate@.contains((row, col))) by {
                assert(fields_to_recalculate@.last() == (row, col));
            }
            assert forall|p2: (i64, i64)| #[trigger]
                fields_to_recalculate@.contains(p2) implies (p2 == (row, col) || is_neighbor(
                row,
                col,
                p2.0,
                p2.1,
            ) || is_neighbor(new_place.0, new_place.1, p2.0, p2.1)) by {
                let j = choose|j: int|
                    0 <= j < fields_to_recalculate@.len() && fields_to_recalculate@[j] == p2;
                if j < before_center.len() {
                    assert(before_center[j] == p2);
                    assert(before_center.contains(p2));
                }
            }
            assert forall|p: (i64, i64)|
                in_bounds(height, width, p.0, p.1) && is_neighbor(
                    new_place.0,
                    new_place.1,
                    p.0,
                    p.1,
                ) implies fields_to_recalculate@.contains(p) by {
                assert(more@.contains(p));
                let j = choose|j: int| 0 <= j < more@.len() && more@[j] == p;
            }
        }
        let n_recalc = fields_to_recalculate.len();
        let mut i: usize = 0;
        while i < n_recalc
            invariant
                n_recalc == fields_to_recalculate@.len(),
                0 <= i <= n_recalc,
                self.spec_height() == height,
                self.spec_width() == width,
                self.frame_wf(),
                self.mines() == s1.mines(),
                self.opened_count() == s1.opened_count(),
                forall|j: int|
                    0 <= j < n_recalc ==> in_bounds(
                        height,
                        width,
                        #[trigger] fields_to_recalculate@[j].0,
                        fields_to_recalculate@[j].1,
                    ),
                forall|rr: i64, cc: i64|
                    in_bounds(height, width, rr, cc) ==> (#[trigger] self.cell(rr, cc)).state
                        == s1.cell(rr, cc).state,
                forall|rr: i64, cc: i64|
                    in_bounds(height, width, rr, cc) ==> ((#[trigger] self.cell(
                        rr,
                        cc,
                    ).field_type is Mine) <==> (s1.cell(rr, cc).field_type is Mine)),
                forall|rr: i64, cc: i64|
                    in_bounds(height, width, rr, cc) && !(exists|j: int|
                        0 <= j < i && #[trigger] fields_to_recalculate@[j] == (rr, cc)) ==> (
                    #[trigger] self.cell(rr, cc)).field_type == s1.cell(rr, cc).field_type,
                forall|j: int|
                    0 <= j < i ==> {
                        let q = #[trigger] fields_to_recalculate@[j];
                        cell_consistent_with(
                            self.cell(q.0, q.1).field_type,
                            self.mines(),
                            height,
                            width,
                            q.0,
                            q.1,
                        )
                    },
            decreases n_recalc - i,
        {
            let q = fields_to_recalculate[i];
            let ghost before = *self;
            let fcur = self.get_field_unchecked(q.0, q.1);
            if !fcur.get_field_type().is_mine() {
                let value = match self.get_field_value(q.0, q.1) {
                    Ok(v) => v,
                    Err(_) => 0,  // unreachable: the cell is not a mine
                };
                proof {
                    crate::geometry::lemma_nbr_mine_count_bounds(
                        self.mines(),
                        height,
                        width,
                        q.0,
                        q.1,
                    );
                }
                let mut fnew = fcur;
                let update_result = if value == 0 {
                    fnew.update_type_to_empty()
                } else {
                    fnew.update_type_with_value(value)
                };
                proof {
                    lemma_fresh_board_unopened(o);
                    assert(!(fcur.field_info.state is Opened)) by {
                        assert(self.cell(q.0, q.1).state == s1.cell(q.0, q.1).state);
                        assert(s1.cell(q.0, q.1).state == o.cell(q.0, q.1).state);
                    }
                    assert(update_result is Ok);
                }
                self.set_field_unchecked(q.0, q.1, fnew);
                proof {
                    lemma_idx_bounds(height, width, q.0, q.1);
                    assert forall|rr: i64, cc: i64|
                        in_bounds(height, width, rr, cc) && (rr, cc) != (q.0, q.1)
                            implies #[trigger] self.cell(rr, cc) == before.cell(rr, cc) by {
                        lemma_idx_bounds(height, width, rr, cc);
                        if idx(width, rr, cc) == idx(width, q.0, q.1) {
                            crate::geometry::lemma_idx_injective(
                                height,
                                width,
                                rr,
                                cc,
                                q.0,
                                q.1,
                            );
                        }
                    }
                }
            }
            proof {
                assert(cell_consistent_with(
                    self.cell(q.0, q.1).field_type,
                    self.mines(),
                    height,
                    width,
                    q.0,
                    q.1,
                ));
            }
            i = i + 1;
            proof {
                assert forall|j: int|
                    0 <= j < i implies {
                        let q2 = #[trigger] fields_to_recalculate@[j];
                        cell_consistent_with(
                            self.cell(q2.0, q2.1).field_type,
                            self.mines(),
                            height,
                            width,
                            q2.0,
                            q2.1,
                        )
                    } by {
                    let q2 = fields_to_recalculate@[j];
                    if j < i - 1 && (q2.0, q2.1) != (q.0, q.1) {
                        assert(self.cell(q2.0, q2.1) == before.cell(q2.0, q2.1));
                    }
                }
            }
        }
        proof {
            assert(self.wf()) by {
                assert forall|rr: i64, cc: i64|
                    in_bounds(height, width, rr, cc) implies ((#[trigger] self.cell(
                    rr,
                    cc,
                ).field_type is Mine) <==> self.mines().contains((rr, cc))) by {
                    if (rr, cc) != (row, col) && (rr, cc) != (new_place.0, new_place.1) {
                        assert(s1.cell(rr, cc) == o.cell(rr, cc));
                        assert((o.cell(rr, cc).field_type is Mine) <==> old_mines.contains(
                            (rr, cc),
                        ));
                    }
                }
                assert forall|rr: i64, cc: i64|
                    in_bounds(height, width, rr, cc) implies match #[trigger] self.cell(
                    rr,
                    cc,
                ).field_type {
                    FieldType::Mine => true,
                    FieldType::Empty => nbr_mine_count(self.mines(), height, width, rr, cc)
                        == 0,
                    FieldType::Numbered(n) => 1 <= n <= 8 && n == nbr_mine_count(
                        self.mines(),
                        height,
                        width,
                        rr,
                        cc,
                    ),
                } by {
                    if !(self.cell(rr, cc).field_type is Mine) {
                        if exists|j: int|
                            0 <= j < n_recalc && #[trigger] fields_to_recalculate@[j] == (
                            rr,
                            cc,
                        ) {
                            let j = choose|j: int|
                                0 <= j < n_recalc && #[trigger] fields_to_recalculate@[j] == (
                                rr,
                                cc,
                                );
                            assert(cell_consistent_with(
                                self.cell(rr, cc).field_type,
                                self.mines(),
                                height,
                                width,
                                rr,
                                cc,
                            ));
                        } else {
                            assert(self.cell(rr, cc).field_type == s1.cell(rr, cc).field_type);
                            assert(!fields_to_recalculate@.contains((rr, cc)));
                            assert((rr, cc) != (row, col)) by {
                                assert(fields_to_recalculate@[n_recalc - 1] == (row, col));
                            }
                            assert(!is_neighbor(row, col, rr, cc)) by {
                                if is_neighbor(row, col, rr, cc) {
                                    assert(fields_to_recalculate@.contains((rr, cc)));
                                }
                            }
                            assert(!is_neighbor(new_place.0, new_place.1, rr, cc)) by {
                                if is_neighbor(new_place.0, new_place.1, rr, cc) {
                                    assert(fields_to_recalculate@.contains((rr, cc)));
                                }
                            }
                            assert((rr, cc) != (new_place.0, new_place.1));
                            assert(s1.cell(rr, cc) == o.cell(rr, cc));
                            lemma_nbr_count_unchanged(
                                old_mines,
                                self.mines(),
                                height,
                                width,
                                rr,
                                cc,
                                (row, col),
                                (new_place.0, new_place.1),
                            );
                        }
                    }
                }
                assert(count_opened(self.grid()) == 0) by {
                    lemma_fresh_board_unopened(o);
                    lemma_counts_zero(self.grid());
                    assert forall|i2: int| 0 <= i2 < self.grid().len() implies opened_ind(
                        #[trigger] self.grid()[i2],
                    ) == 0 by {
                        lemma_coords_of_idx(height, width, i2);
                        let rr = (i2 / (width as int)) as i64;
                        let cc = (i2 % (width as int)) as i64;
                        assert(self.grid()[idx(width, rr, cc)].field_info == self.cell(rr, cc));
                        assert(self.cell(rr, cc).state == o.cell(rr, cc).state);
                    }
                }
                assert(count_mines(self.grid()) == self.mines().len()) by {
                    assert forall|rr: i64, cc: i64|
                        in_bounds(height, width, rr, cc) implies ((self.grid()[idx(
                        width,
                        rr,
                        cc,
                    )].field_info.field_type is Mine) <==> #[trigger] self.mines().contains(
                        (rr, cc),
                    )) by {
                        lemma_idx_bounds(height, width, rr, cc);
                        assert(self.grid()[idx(width, rr, cc)].field_info == self.cell(rr, cc));
                        assert((self.cell(rr, cc).field_type is Mine)
                            <==> self.mines().contains((rr, cc)));
                    }
                    lemma_mine_count_matches_list(self.grid(), height, width, self.mines());
                }
            }
            assert forall|rr: i64, cc: i64|
                in_bounds(height, width, rr, cc) implies (#[trigger] self.cell(rr, cc)).state
                == o.cell(rr, cc).state by {
                if (rr, cc) != (row, col) && (rr, cc) != (new_place.0, new_place.1) {
                    assert(s1.cell(rr, cc) == o.cell(rr, cc));
                }
            }
            assert forall|p2: (i64, i64)|
                in_bounds(height, width, p2.0, p2.1) && p2 != (row, col) && p2 != (
                new_place.0,
                new_place.1,
            ) && !is_neighbor(row, col, p2.0, p2.1) && !is_neighbor(
                new_place.0,
                new_place.1,
                p2.0,
                p2.1,
            ) implies #[trigger] self.cell(p2.0, p2.1) == o.cell(p2.0, p2.1) by {
                assert(!fields_to_recalculate@.contains(p2));
                assert(!(exists|j: int|
                    0 <= j < n_recalc && #[trigger] fields_to_recalculate@[j] == p2)) by {
                    if exists|j: int|
                        0 <= j < n_recalc && #[trigger] fields_to_recalculate@[j] == p2 {
                        let j = choose|j: int|
                            0 <= j < n_recalc && #[trigger] fields_to_recalculate@[j] == p2;
                        assert(fields_to_recalculate@.contains(p2));
                    }
                }
                assert(self.cell(p2.0, p2.1).field_type == s1.cell(p2.0, p2.1).field_type);
                assert(self.cell(p2.0, p2.1).state == s1.cell(p2.0, p2.1).state);
                assert(s1.cell(p2.0, p2.1) == o.cell(p2.0, p2.1));
            }
        }
        Ok(())
    }

    /// Open a cell. A flagged cell is a protective no-op; the very first open
    /// of the game relocates a mine away from the click; otherwise the flood
    /// fill runs from the click. Fails with `InvalidIndex` exactly when the
    /// coordinate is out of bounds, and the board is then unchanged.
    pub fn open_field(&mut self, row: i64, col: i64) -> (r: Result<OpenInfo, GameError>)
        requires
            old(self).wf(),
        ensures
            final(self).wf(),
            final(self).spec_height() == old(self).spec_height(),
            final(self).spec_width() == old(self).spec_width(),
            final(self).mines().len() == old(self).mines().len(),
            final(self).opened_count() >= old(self).opened_count(),
            r is Ok <==> in_bounds(old(self).spec_height(), old(self).spec_width(), row, col),
            r is Err ==> r == Err::<OpenInfo, GameError>(GameError::InvalidIndex) && *final(self)
                == *old(self),
            r is Ok ==> {
                let info = r->Ok_0;
                &&& info.newly_opened_fields.wf()
                &&& (info.result is Okay || info.result is IsFlagged || info.result is Boom
                    || info.result is WINNER)
                &&& ((old(self).cell(row, col).state is Flagged) <==> info.result is IsFlagged)
                &&& (info.result is IsFlagged ==> *final(self) == *old(self)
                    && info.newly_opened_fields.spec_len() == 0)
                &&& states_monotone(*old(self), *final(self))
                &&& (!(old(self).opened_count() == 0 && old(self).cell(row, col).field_type
                    is Mine) ==> final(self).mines() == old(self).mines() && forall|
                    rr: i64,
                    cc: i64,
                |
                    in_bounds(old(self).spec_height(), old(self).spec_width(), rr, cc) ==> (
                    #[trigger] final(self).cell(rr, cc)).field_type == old(self).cell(
                        rr,
                        cc,
                    ).field_type)
                &&& (old(self).opened_count() == 0 ==> !(info.result is Boom))
                &&& (info.result is Boom <==> boomed(*old(self), *final(self)))
                &&& (info.result is Boom ==> info.newly_opened_fields.spec_len() == old(self).spec_height() * old(self).spec_width() && forall|rr: i64, cc: i64|
                    #[trigger] info.newly_opened_fields.spec_contains(rr, cc) <==> in_bounds(
                        old(self).spec_height(),
                        old(self).spec_width(),
                        rr,
                        cc,
                    ))
                &&& (!(info.result is Boom) && !(info.result is IsFlagged) ==> forall|
                    rr: i64,
                    cc: i64,
                |
                    #[trigger] info.newly_opened_fields.spec_contains(rr, cc) <==> (newly_opened(
                        *old(self),
                        *final(self),
                        rr,
                        cc,
                    ) || (info.result is WINNER && final(self).mines().contains((rr, cc)))))
                &&& (forall|rr: i64, cc: i64|
                    in_bounds(old(self).spec_height(), old(self).spec_width(), rr, cc)
                        && #[trigger] info.newly_opened_fields.spec_contains(rr, cc)
                        ==> info.newly_opened_fields.spec_at(rr, cc) == final(self).cell(
                        rr,
                        cc,
                    ).field_type)
                &&& (!(info.result is Boom) && !(info.result is IsFlagged) ==> (info.result
                    is WINNER <==> final(self).mines().len() + final(self).opened_count() == old(self).spec_height() * old(self).spec_width()))
                &&& (old(self).cell(row, col).state is Opened ==> final(self).grid() == old(self).grid() && final(self).opened_count() == old(self).opened_count() && final(self).mines() == old(self).mines() && !(info.result is Boom) && (info.result is Okay
                    ==> info.newly_opened_fields.spec_len() == 0))
                &&& (!(old(self).cell(row, col).state is Flagged) ==> final(self).cell(
                    row,
                    col,
                ).state is Opened)
                &&& (!(info.result is IsFlagged) ==> forall|rr: i64, cc: i64|
                    #[trigger] newly_opened(*old(self), *final(self), rr, cc) ==> ((rr, cc) == (
                    row,
                    col,
                ) || nbr_of_new_empty(*old(self), *final(self), rr, cc)))
                &&& forall|a: (i64, i64), b: (i64, i64)|
                    #[trigger] newly_opened(*old(self), *final(self), a.0, a.1) && final(self).cell(a.0, a.1).field_type is Empty && in_bounds(
                        old(self).spec_height(),
                        old(self).spec_width(),
                        b.0,
                        b.1,
                    ) && #[trigger] is_neighbor(a.0, a.1, b.0, b.1) && old(self).cell(
                        b.0,
                        b.1,
                    ).state is Closed ==> final(self).cell(b.0, b.1).state is Opened
            },
    {
        let ghost o = *old(self);
        self.validate_indices(row, col)?;
        let height = self.height();
        let width = self.width();
        let fcur = self.get_field_unchecked(row, col);
        if fcur.get_field_state().is_flagged() {
            let r = OpenInfo {
                result: OpenResult::IsFlagged,
                newly_opened_fields: OpenedFields::new(),
            };
            proof {
                crate::results::lemma_no_keys_empty(r.newly_opened_fields);
            }
            return Ok(r);
        }
        if self.opened_fields_count() == 0 && fcur.get_field_type().is_mine() {
            match self.move_mine(row, col) {
                Ok(_) => {},
                Err(e) => {
                    // unreachable: relocation always succeeds on a well-formed board
                    proof {
                        assert(false);
                    }
                    return Err(e);
                },
            }
        }
        let ghost m = *self;
        let mut visiter = match FieldVisiter::new(height, width, row, col) {
            Ok(v) => v,
            Err(e) => {
                proof {
                    assert(false);
                }
                return Err(e);
            },
        };
        proof {
            assert(visiter.to_visit() =~= seq![(row, col)]);
            assert forall|p: (i64, i64)| #[trigger]
                visiter.to_visit().contains(p) implies p == (row, col) by {
                let i = choose|i: int|
                    0 <= i < visiter.to_visit().len() && visiter.to_visit()[i] == p;
            }
            assert(visiter.to_visit().contains((row, col))) by {
                assert(visiter.to_visit()[0] == (row, col));
            }
            if m.opened_count() == 0 {
                assert(!(m.cell(row, col).field_type is Mine));
            }
        }
        let ghost itv = visiter.to_visit();
        let info = self.execute_open(&mut visiter);
        proof {
            let f = *self;
            assert forall|rr: i64, cc: i64| #[trigger]
                newly_opened(o, f, rr, cc) == newly_opened(m, f, rr, cc) by {
                assert(m.cell(rr, cc).state == o.cell(rr, cc).state || !in_bounds(
                    height,
                    width,
                    rr,
                    cc,
                ));
            }
            assert(states_monotone(o, f)) by {
                assert forall|rr: i64, cc: i64|
                    in_bounds(height, width, rr, cc) implies {
                    &&& (o.cell(rr, cc).state is Opened ==> (#[trigger] f.cell(rr, cc)).state
                        is Opened)
                    &&& (o.cell(rr, cc).state is Flagged <==> f.cell(rr, cc).state is Flagged)
                    &&& (f.cell(rr, cc).state != o.cell(rr, cc).state ==> o.cell(rr, cc).state
                        is Closed && f.cell(rr, cc).state is Opened)
                } by {
                    assert(m.cell(rr, cc).state == o.cell(rr, cc).state);
                    assert(f.cell(rr, cc).field_type == m.cell(rr, cc).field_type);
                }
            }
            assert(info.result is Boom <==> boomed(o, f)) by {
                if boomed(m, f) {
                    let p = choose|p: (i64, i64)|
                        #[trigger] newly_opened(m, f, p.0, p.1) && f.cell(p.0, p.1).field_type
                            is Mine;
                    assert(newly_opened(o, f, p.0, p.1));
                }
                if boomed(o, f) {
                    let p = choose|p: (i64, i64)|
                        #[trigger] newly_opened(o, f, p.0, p.1) && f.cell(p.0, p.1).field_type
                            is Mine;
                    assert(newly_opened(m, f, p.0, p.1));
                }
            }
            assert forall|rr: i64, cc: i64| #[trigger]
                newly_opened(o, f, rr, cc) implies ((rr, cc) == (row, col) || nbr_of_new_empty(
                o,
                f,
                rr,
                cc,
            )) by {
                assert(newly_opened(m, f, rr, cc));
                if itv.contains((rr, cc)) {
                    assert((rr, cc) == (row, col));
                } else {
                    assert(nbr_of_new_empty(m, f, rr, cc));
                    let p = choose|p: (i64, i64)|
                        #[trigger] newly_opened(m, f, p.0, p.1) && f.cell(p.0, p.1).field_type
                            is Empty && is_neighbor(p.0, p.1, rr, cc);
                    assert(newly_opened(o, f, p.0, p.1) && f.cell(p.0, p.1).field_type is Empty
                        && is_neighbor(p.0, p.1, rr, cc));
                }
            }
            if o.opened_count() == 0 && info.result is Boom {
                let p = choose|p: (i64, i64)|
                    #[trigger] newly_opened(m, f, p.0, p.1) && f.cell(p.0, p.1).field_type
                        is Mine;
                if itv.contains((p.0, p.1)) {
                    assert((p.0, p.1) == (row, col));
                    assert(f.cell(row, col).field_type == m.cell(row, col).field_type);
                    assert(false);
                } else {
                    assert(nbr_of_new_empty(m, f, p.0, p.1));
                    let q = choose|q: (i64, i64)|
                        #[trigger] newly_opened(m, f, q.0, q.1) && f.cell(q.0, q.1).field_type
                            is Empty && is_neighbor(q.0, q.1, p.0, p.1);
                    lemma_mine_free_neighborhood(f, q.0, q.1, p.0, p.1);
                    assert(false);
                }
            }
            if o.cell(row, col).state is Opened {
                assert(m.grid() == o.grid()) by {
                    if o.opened_count() == 0 && o.cell(row, col).field_type is Mine {
                        lemma_fresh_board_unopened(o);
                        assert(false);
                    }
                }
                assert forall|p: (i64, i64)| #[trigger]
                    itv.contains(p) implies (m.cell(p.0, p.1).state is Opened || m.cell(
                    p.0,
                    p.1,
                ).state is Flagged) by {
                    assert(p == (row, col));
                    assert(m.cell(row, col) == o.cell(row, col));
                }
                assert(f.grid() == m.grid() && f.opened_count() == m.opened_count());
                if info.result is Okay {
                    assert forall|rr: i64, cc: i64| !(
                    #[trigger] info.newly_opened_fields.spec_contains(rr, cc)) by {
                        if newly_opened(o, f, rr, cc) {
                            assert(f.cell(rr, cc) == o.cell(rr, cc));
                        }
                    }
                    crate::results::lemma_no_keys_empty(info.newly_opened_fields);
                }
            }
            if !(o.cell(row, col).state is Flagged) {
                assert(f.cell(row, col).state is Opened) by {
                    if m.cell(row, col).state is Closed {
                        assert(itv.contains((row, col)));
                    } else {
                        assert(m.cell(row, col).state is Opened);
                    }
                }
            }
        }
        Ok(info)
    }

    /// Chord-click: when the clicked cell is opened, numbered, and exactly as
    /// many of its neighbors are flagged as its number says, open all its
    /// unflagged neighbors with the same flood fill; otherwise nothing
    /// happens. Fails with `InvalidIndex` exactly when the coordinate is out
    /// of bounds.
    pub fn open_neighbors(&mut self, row: i64, col: i64) -> (r: Result<OpenInfo, GameError>)
        requires
            old(self).wf(),
        ensures
            final(self).wf(),
            final(self).spec_height() == old(self).spec_height(),
            final(self).spec_width() == old(self).spec_width(),
            final(self).mines() == old(self).mines(),
            final(self).opened_count() >= old(self).opened_count(),
            r is Ok <==> in_bounds(old(self).spec_height(), old(self).spec_width(), row, col),
            r is Err ==> r == Err::<OpenInfo, GameError>(GameError::InvalidIndex) && *final(self)
                == *old(self),
            r is Ok ==> {
                let info = r->Ok_0;
                &&& info.newly_opened_fields.wf()
                &&& (!chord_ready(*old(self), row, col) ==> *final(self) == *old(self)
                    && info.result is Okay && info.newly_opened_fields.spec_len() == 0)
                &&& cells_monotone(*old(self), *final(self))
                &&& (info.result is Okay || info.result is Boom || info.result is WINNER)
                &&& (info.result is Boom <==> boomed(*old(self), *final(self)))
                &&& (info.result is Boom ==> info.newly_opened_fields.spec_len() == old(self).spec_height() * old(self).spec_width() && forall|rr: i64, cc: i64|
                    #[trigger] info.newly_opened_fields.spec_contains(rr, cc) <==> in_bounds(
                        old(self).spec_height(),
                        old(self).spec_width(),
                        rr,
                        cc,
                    ))
                &&& (!(info.result is Boom) ==> forall|rr: i64, cc: i64|
                    #[trigger] info.newly_opened_fields.spec_contains(rr, cc) <==> (newly_opened(
                        *old(self),
                        *final(self),
                        rr,
                        cc,
                    ) || (info.result is WINNER && final(self).mines().contains((rr, cc)))))
                &&& (forall|rr: i64, cc: i64|
                    in_bounds(old(self).spec_height(), old(self).spec_width(), rr, cc)
                        && #[trigger] info.newly_opened_fields.spec_contains(rr, cc)
                        ==> info.newly_opened_fields.spec_at(rr, cc) == final(self).cell(
                        rr,
                        cc,
                    ).field_type)
                &&& (chord_ready(*old(self), row, col) && !(info.result is Boom) ==> (info.result
                    is WINNER <==> final(self).mines().len() + final(self).opened_count() == old(self).spec_height() * old(self).spec_width()))
                &&& (forall|rr: i64, cc: i64|
                    #[trigger] newly_opened(*old(self), *final(self), rr, cc) ==> (is_neighbor(
                        row,
                        col,
                        rr,
                        cc,
                    ) || nbr_of_new_empty(*old(self), *final(self), rr, cc)))
                &&& (chord_ready(*old(self), row, col) ==> forall|rr: i64, cc: i64|
                    in_bounds(old(self).spec_height(), old(self).spec_width(), rr, cc)
                        && #[trigger] is_neighbor(row, col, rr, cc) && old(self).cell(
                        rr,
                        cc,
                    ).state is Closed ==> final(self).cell(rr, cc).state is Opened)
                &&& forall|a: (i64, i64), b: (i64, i64)|
                    #[trigger] newly_opened(*old(self), *final(self), a.0, a.1) && final(self).cell(a.0, a.1).field_type is Empty && in_bounds(
                        old(self).spec_height(),
                        old(self).spec_width(),
                        b.0,
                        b.1,
                    ) && #[trigger] is_neighbor(a.0, a.1, b.0, b.1) && old(self).cell(
                        b.0,
                        b.1,
                    ).state is Closed ==> final(self).cell(b.0, b.1).state is Opened
            },
    {
        let ghost o = *old(self);
        self.validate_indices(row, col)?;
        let height = self.height();
        let width = self.width();
        let fcur = self.get_field_unchecked(row, col);
        if !fcur.get_field_state().is_opened() {
            let r = OpenInfo {
                result: OpenResult::Okay,
                newly_opened_fields: OpenedFields::new(),
            };
            proof {
                crate::results::lemma_no_keys_empty(r.newly_opened_fields);
            }
            return Ok(r);
        }
        let flagged_neighbors = self.count_flagged_neighbors(row, col);
        let satisfied = match fcur.get_field_type() {
            FieldType::Numbered(x) => x == flagged_neighbors,
            _ => false,
        };
        if !satisfied {
            let r = OpenInfo {
                result: OpenResult::Okay,
                newly_opened_fields: OpenedFields::new(),
            };
            proof {
                crate::results::lemma_no_keys_empty(r.newly_opened_fields);
            }
            return Ok(r);
        }
        let mut visiter = match FieldVisiter::new(height, width, row, col) {
            Ok(v) => v,
            Err(e) => {
                proof {
                    assert(false);
                }
                return Err(e);
            },
        };
        visiter.extend_with_unvisited_neighbors(row, col);
        proof {
            assert forall|p: (i64, i64)| #[trigger]
                visiter.to_visit().contains(p) implies (p == (row, col) || (in_bounds(
                height,
                width,
                p.0,
                p.1,
            ) && is_neighbor(row, col, p.0, p.1))) by {
                if seq![(row, col)].contains(p) {
                    let i = choose|i: int| 0 <= i < 1 && seq![(row, col)][i] == p;
                }
            }
            assert forall|p: (i64, i64)|
                in_bounds(height, width, p.0, p.1) && #[trigger] is_neighbor(
                    row,
                    col,
                    p.0,
                    p.1,
                ) implies visiter.to_visit().contains(p) by {}
            if o.opened_count() == 0 {
                lemma_fresh_board_unopened(o);
                assert(false);
            }
        }
        let ghost itv = visiter.to_visit();
        let info = self.execute_open(&mut visiter);
        proof {
            let f = *self;
            assert forall|rr: i64, cc: i64| #[trigger]
                newly_opened(o, f, rr, cc) implies (is_neighbor(row, col, rr, cc)
                || nbr_of_new_empty(o, f, rr, cc)) by {
                if itv.contains((rr, cc)) {
                    if (rr, cc) == (row, col) {
                        assert(!(newly_opened(o, f, rr, cc)));
                    }
                }
            }
            assert forall|rr: i64, cc: i64|
                in_bounds(height, width, rr, cc) && #[trigger] is_neighbor(row, col, rr, cc)
                    && o.cell(rr, cc).state is Closed implies f.cell(
                rr,
                cc,
            ).state is Opened by {
                assert(itv.contains((rr, cc)));
            }
        }
        Ok(info)
    }
}

/// An opened `Empty` cell has no mine among its neighbors: the grid invariant
/// says its mine-neighbor count is zero, so each neighbor is mine-free.
pub proof fn lemma_mine_free_neighborhood(t: BasicTable, row: i64, col: i64, r2: i64, c2: i64)
    requires
        t.wf(),
        in_bounds(t.spec_height(), t.spec_width(), row, col),
        in_bounds(t.spec_height(), t.spec_width(), r2, c2),
        t.cell(row, col).field_type is Empty,
        is_neighbor(row, col, r2, c2),
    ensures
        !(t.cell(r2, c2).field_type is Mine),
{
    let mines = t.mines();
    let h = t.spec_height();
    let w = t.spec_width();
    assert(nbr_mine_count(mines, h, w, row, col) == 0);
    assert(mine_ind(mines, h, w, r2 as int, c2 as int) >= 0);
    assert(mine_ind(mines, h, w, r2 as int, c2 as int) == 0);
    assert(!mines.contains((r2, c2)));
}

} // verus!
