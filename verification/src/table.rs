//! The board: the grid of cells, the mine list, and the opened-cell counter,
//! with construction and the per-cell operations. The opening protocol
//! (flood fill, chording, first-click relocation) continues in `opening`.

use vstd::prelude::*;

use crate::counting::{
    count_mines, count_opened, lemma_counts_bounds, lemma_counts_update, lemma_counts_zero,
    lemma_mine_count_matches_list, mine_cell_ind, opened_ind,
};
use crate::field::{FieldInfo, FieldInner, FieldType};
use crate::geometry::{
    check_sizes, dims_fit, generate_fields, idx, in_bounds, lemma_coords_of_idx,
    lemma_idx_bounds, nbr_mine_count, sizes_ok, valid_dims,
};
use crate::results::{FlagResult, GameError};

verus! {

broadcast use vstd::seq_lib::group_seq_properties;

/// Relies on rand::random: a pseudo-random value; nothing is promised of it.
#[verifier::external_body]
fn random_u64() -> u64 {
    rand::random::<u64>()
}

/// Indicator for a flagged cell of the grid at an in-bounds coordinate.
pub open spec fn flag_ind(grid: Seq<FieldInner>, height: i64, width: i64, r: int, c: int) -> int {
    if 0 <= r < height && 0 <= c < width && grid[r * width + c].field_info.state is Flagged {
        1int
    } else {
        0int
    }
}

/// The number of flagged cells among the eight neighbors of `(row, col)`.
pub open spec fn nbr_flag_count(
    grid: Seq<FieldInner>,
    height: i64,
    width: i64,
    row: i64,
    col: i64,
) -> int {
    flag_ind(grid, height, width, row - 1, col - 1) + flag_ind(
        grid,
        height,
        width,
        row - 1,
        col as int,
    ) + flag_ind(grid, height, width, row - 1, col + 1) + flag_ind(
        grid,
        height,
        width,
        row as int,
        col - 1,
    ) + flag_ind(grid, height, width, row as int, col + 1) + flag_ind(
        grid,
        height,
        width,
        row + 1,
        col - 1,
    ) + flag_ind(grid, height, width, row + 1, col as int) + flag_ind(
        grid,
        height,
        width,
        row + 1,
        col + 1,
    )
}

/// Swapping two entries of a sequence keeps it duplicate-free and keeps its
/// members.
proof fn lemma_swap_preserves(s: Seq<(i64, i64)>, a: int, b: int)
    requires
        0 <= a < s.len(),
        0 <= b < s.len(),
        s.no_duplicates(),
    ensures
        s.update(a, s[b]).update(b, s[a]).no_duplicates(),
        forall|p: (i64, i64)|
            #[trigger] s.update(a, s[b]).update(b, s[a]).contains(p) <==> s.contains(p),
{
    let t = s.update(a, s[b]).update(b, s[a]);
    if a == b {
        assert(t =~= s);
    } else {
        assert(t.len() == s.len());
        assert(t[a] == s[b] && t[b] == s[a]);
        assert(forall|i: int| 0 <= i < s.len() && i != a && i != b ==> t[i] == s[i]);
        assert forall|i: int, j: int|
            0 <= i < t.len() && 0 <= j < t.len() && i != j implies t[i] != t[j] by {
            let si = if i == a { b } else if i == b { a } else { i };
            let sj = if j == a { b } else if j == b { a } else { j };
            assert(t[i] == s[si] && t[j] == s[sj] && si != sj);
        }
        assert forall|p: (i64, i64)| #[trigger] t.contains(p) implies s.contains(p) by {
            let i = choose|i: int| 0 <= i < t.len() && t[i] == p;
            let si = if i == a { b } else if i == b { a } else { i };
            assert(s[si] == p);
        }
        assert forall|p: (i64, i64)| s.contains(p) implies #[trigger] t.contains(p) by {
            let i = choose|i: int| 0 <= i < s.len() && s[i] == p;
            let ti = if i == a { b } else if i == b { a } else { i };
            assert(t[ti] == p);
        }
    }
}

/// Pick `number_of_mines` distinct in-bounds coordinates, uniformly without
/// replacement: lay out every cell of the board, shuffle a prefix with the
/// random source, and take it. Validates the sizes first, as construction
/// requires.
pub(crate) fn generate_mine_locations(height: i64, width: i64, number_of_mines: i64) -> (r: Result<
    Vec<(i64, i64)>,
    GameError,
>)
    ensures
        r is Ok <==> (sizes_ok(height, width, number_of_mines as int) && height > 0 && width > 0),
        !dims_fit(height, width) ==> r == Err::<Vec<(i64, i64)>, GameError>(
            GameError::TooManyFields,
        ),
        dims_fit(height, width) && number_of_mines > height * width - 1 ==> r == Err::<
            Vec<(i64, i64)>,
            GameError,
        >(GameError::TooManyMines),
        dims_fit(height, width) && number_of_mines <= height * width - 1 && number_of_mines < 1
            ==> r == Err::<Vec<(i64, i64)>, GameError>(GameError::TooFewMines),
        sizes_ok(height, width, number_of_mines as int) && (height <= 0 || width <= 0) ==> r
            == Err::<Vec<(i64, i64)>, GameError>(GameError::InvalidMineLocations),
        r is Ok ==> {
            &&& r->Ok_0@.no_duplicates()
            &&& forall|p: (i64, i64)|
                #[trigger] r->Ok_0@.contains(p) ==> in_bounds(height, width, p.0, p.1)
            &&& r->Ok_0@.len() == number_of_mines
        },
{
    check_sizes(height, width, number_of_mines)?;
    if height <= 0 || width <= 0 {
        return Err(GameError::InvalidMineLocations);
    }
    let mut deck: Vec<(i64, i64)> = Vec::new();
    let mut r: i64 = 0;
    while r < height
        invariant
            valid_dims(height, width),
            0 <= r <= height,
            deck@.len() == r * width,
            forall|rr: i64, cc: i64|
                in_bounds(height, width, rr, cc) && rr < r ==> #[trigger] deck@[idx(
                    width,
                    rr,
                    cc,
                )] == (rr, cc),
        decreases height - r,
    {
        let mut c: i64 = 0;
        while c < width
            invariant
                valid_dims(height, width),
                0 <= r < height,
                0 <= c <= width,
                deck@.len() == r * width + c,
                forall|rr: i64, cc: i64|
                    in_bounds(height, width, rr, cc) && (rr < r || (rr == r && cc < c))
                        ==> #[trigger] deck@[idx(width, rr, cc)] == (rr, cc),
            decreases width - c,
        {
            proof {
                lemma_idx_bounds(height, width, r, c);
                assert forall|rr: i64, cc: i64|
                    in_bounds(height, width, rr, cc) && (rr < r || (rr == r && cc < c))
                        implies 0 <= idx(width, rr, cc) < deck@.len() by {
                    lemma_idx_bounds(height, width, rr, cc);
                    assert(rr * width + cc < r * width + c) by (nonlinear_arith)
                        requires
                            0 <= rr,
                            0 <= cc < width,
                            0 < width,
                            0 <= c,
                            (rr < r || (rr == r && cc < c)),
                    ;
                }
            }
            deck.push((r, c));
            c = c + 1;
        }
        r = r + 1;
        proof {
            assert((r - 1) * width + width == r * width) by (nonlinear_arith);
        }
    }
    proof {
        assert forall|i: int, j: int|
            0 <= i < deck@.len() && 0 <= j < deck@.len() && i != j implies deck@[i]
            != deck@[j] by {
            lemma_coords_of_idx(height, width, i);
            lemma_coords_of_idx(height, width, j);
            let ri = (i / (width as int)) as i64;
            let ci = (i % (width as int)) as i64;
            let rj = (j / (width as int)) as i64;
            let cj = (j % (width as int)) as i64;
            assert(deck@[idx(width, ri, ci)] == (ri, ci));
            assert(deck@[idx(width, rj, cj)] == (rj, cj));
        }
        assert forall|p: (i64, i64)| #[trigger] deck@.contains(p) implies in_bounds(
            height,
            width,
            p.0,
            p.1,
        ) by {
            let i = choose|i: int| 0 <= i < deck@.len() && deck@[i] == p;
            lemma_coords_of_idx(height, width, i);
            let ri = (i / (width as int)) as i64;
            let ci = (i % (width as int)) as i64;
            assert(deck@[idx(width, ri, ci)] == (ri, ci));
        }
    }
    let n: usize = deck.len();
    let m: usize = number_of_mines as usize;
    let mut k: usize = 0;
    while k < m
        invariant
            valid_dims(height, width),
            deck@.len() == n,
            n == height * width,
            m == number_of_mines,
            1 <= m < n,
            0 <= k <= m,
            deck@.no_duplicates(),
            forall|p: (i64, i64)|
                #[trigger] deck@.contains(p) ==> in_bounds(height, width, p.0, p.1),
        decreases m - k,
    {
        let rnd = random_u64();
        let span: usize = n - k;
        let off: u64 = rnd % (span as u64);
        let j: usize = k + (off as usize);
        let a = deck[k];
        let b = deck[j];
        let ghost before = deck@;
        deck.set(k, b);
        deck.set(j, a);
        proof {
            lemma_swap_preserves(before, k as int, j as int);
            if k == j {
                assert(deck@ =~= before.update(k as int, before[j as int]).update(
                    j as int,
                    before[k as int],
                ));
            }
        }
        k = k + 1;
    }
    let mut mines: Vec<(i64, i64)> = Vec::new();
    let mut t: usize = 0;
    while t < m
        invariant
            deck@.len() == n,
            0 <= t <= m,
            m < n,
            mines@.len() == t,
            forall|i: int| 0 <= i < t ==> #[trigger] mines@[i] == deck@[i],
        decreases m - t,
    {
        mines.push(deck[t]);
        t = t + 1;
    }
    proof {
        assert forall|i: int, j: int|
            0 <= i < mines@.len() && 0 <= j < mines@.len() && i != j implies mines@[i]
            != mines@[j] by {
            assert(mines@[i] == deck@[i] && mines@[j] == deck@[j]);
        }
        assert forall|p: (i64, i64)| #[trigger] mines@.contains(p) implies in_bounds(
            height,
            width,
            p.0,
            p.1,
        ) by {
            let i = choose|i: int| 0 <= i < mines@.len() && mines@[i] == p;
            assert(deck@[i] == p);
            assert(deck@.contains(p));
        }
    }
    Ok(mines)
}

/// The board. The grid is stored row-major; `(r, c)` lives at `r * width + c`.
pub struct BasicTable {
    height: i64,
    width: i64,
    mine_locations: Vec<(i64, i64)>,
    number_of_opened_fields: i64,
    fields: Vec<FieldInner>,
}

impl BasicTable {
    pub closed spec fn spec_height(self) -> i64 {
        self.height
    }

    pub closed spec fn spec_width(self) -> i64 {
        self.width
    }

    /// The mine list. Well-formed boards keep it duplicate-free, so it can be
    /// read as a set of coordinates.
    pub closed spec fn mines(self) -> Seq<(i64, i64)> {
        self.mine_locations@
    }

    /// The grid, row-major.
    pub closed spec fn grid(self) -> Seq<FieldInner> {
        self.fields@
    }

    /// The opened-cell counter used for win detection.
    pub closed spec fn opened_count(self) -> int {
        self.number_of_opened_fields as int
    }

    /// The cell at an in-bounds coordinate.
    pub open spec fn cell(self, row: i64, col: i64) -> FieldInfo {
        self.grid()[idx(self.spec_width(), row, col)].field_info
    }

    /// The dimensions are sound and the grid has exactly one cell per
    /// coordinate.
    pub open spec fn frame_wf(self) -> bool {
        &&& valid_dims(self.spec_height(), self.spec_width())
        &&& self.grid().len() == self.spec_height() * self.spec_width()
    }

    /// The board invariant.
    ///
    /// - the mine list is duplicate-free, in bounds, and its size lies in
    ///   `[1, cells - 1]`;
    /// - a cell's type is `Mine` exactly when its coordinate is listed;
    /// - a non-mine cell's type is `Empty` or `Numbered(n)` according to its
    ///   mine-neighbor count;
    /// - the opened counter equals the number of opened non-mine cells, and
    ///   the mine list's length equals the number of mine cells;
    /// - an opened mine (a lost game) implies the counter is positive, so a
    ///   fresh-looking board has no opened cell at all.
    pub open spec fn wf(self) -> bool {
        &&& self.frame_wf()
        &&& self.mines().no_duplicates()
        &&& forall|p: (i64, i64)| #[trigger]
            self.mines().contains(p) ==> in_bounds(self.spec_height(), self.spec_width(), p.0, p.1)
        &&& 1 <= self.mines().len() <= self.spec_height() * self.spec_width() - 1
        &&& forall|r: i64, c: i64|
            in_bounds(self.spec_height(), self.spec_width(), r, c) ==> ((#[trigger] self.cell(
                r,
                c,
            ).field_type is Mine) <==> self.mines().contains((r, c)))
        &&& forall|r: i64, c: i64|
            in_bounds(self.spec_height(), self.spec_width(), r, c)
                ==> match #[trigger] self.cell(r, c).field_type {
                FieldType::Mine => true,
                FieldType::Empty => nbr_mine_count(
                    self.mines(),
                    self.spec_height(),
                    self.spec_width(),
                    r,
                    c,
                ) == 0,
                FieldType::Numbered(n) => 1 <= n <= 8 && n == nbr_mine_count(
                    self.mines(),
                    self.spec_height(),
                    self.spec_width(),
                    r,
                    c,
                ),
            }
        &&& self.opened_count() == count_opened(self.grid())
        &&& self.mines().len() == count_mines(self.grid())
        &&& forall|r: i64, c: i64|
            in_bounds(self.spec_height(), self.spec_width(), r, c) && (#[trigger] self.cell(
                r,
                c,
            ).state is Opened) && self.cell(r, c).field_type is Mine ==> self.opened_count() >= 1
    }

    /// Build a board from an explicit mine list: the deterministic
    /// constructor behind `new`, also used directly by tests. Fails with the
    /// size errors of `check_sizes`, or with `InvalidMineLocations` when a
    /// listed coordinate is out of bounds or listed twice.
    #[verifier::loop_isolation(false)]
    pub fn with_custom_mines(height: i64, width: i64, mine_locations: Vec<(i64, i64)>) -> (r:
        Result<BasicTable, GameError>)
        ensures
            r is Ok <==> (sizes_ok(height, width, mine_locations@.len() as int)
                && mine_locations@.no_duplicates() && (forall|p: (i64, i64)|
                #[trigger] mine_locations@.contains(p) ==> in_bounds(height, width, p.0, p.1))),
            !dims_fit(height, width) ==> r == Err::<BasicTable, GameError>(
                GameError::TooManyFields,
            ),
            dims_fit(height, width) && mine_locations@.len() > height * width - 1 ==> r == Err::<
                BasicTable,
                GameError,
            >(GameError::TooManyMines),
            dims_fit(height, width) && mine_locations@.len() <= height * width - 1
                && mine_locations@.len() < 1 ==> r == Err::<BasicTable, GameError>(
                GameError::TooFewMines,
            ),
            sizes_ok(height, width, mine_locations@.len() as int) && !(
            mine_locations@.no_duplicates() && (forall|p: (i64, i64)|
                #[trigger] mine_locations@.contains(p) ==> in_bounds(height, width, p.0, p.1)))
                ==> r == Err::<BasicTable, GameError>(GameError::InvalidMineLocations),
            r is Ok ==> {
                &&& r->Ok_0.wf()
                &&& r->Ok_0.spec_height() == height
                &&& r->Ok_0.spec_width() == width
                &&& r->Ok_0.mines() == mine_locations@
                &&& r->Ok_0.opened_count() == 0
                &&& forall|rr: i64, cc: i64|
                    in_bounds(height, width, rr, cc) ==> (#[trigger] r->Ok_0.cell(
                        rr,
                        cc,
                    ).state) is Closed
            },
    {
        crate::geometry::check_number_of_fields(height, width)?;
        if (mine_locations.len() as u64) >= (i64::MAX as u64) {
            return Err(GameError::TooManyMines);
        }
        let count: i64 = mine_locations.len() as i64;
        check_sizes(height, width, count)?;
        proof {
            assert(count == mine_locations@.len());
            assert(sizes_ok(height, width, mine_locations@.len() as int));
        }
        let n_locs = mine_locations.len();
        let mut i: usize = 0;
        while i < n_locs
            invariant
                n_locs == mine_locations@.len(),
                0 <= i <= n_locs,
                forall|j: int|
                    0 <= j < i ==> in_bounds(
                        height,
                        width,
                        #[trigger] mine_locations@[j].0,
                        mine_locations@[j].1,
                    ),
                forall|j: int, j2: int|
                    0 <= j2 < j < i ==> #[trigger] mine_locations@[j2]
                        != #[trigger] mine_locations@[j],
            decreases n_locs - i,
        {
            let p = mine_locations[i];
            if p.0 < 0 || p.0 >= height || p.1 < 0 || p.1 >= width {
                proof {
                    assert(mine_locations@.contains(p));
                }
                return Err(GameError::InvalidMineLocations);
            }
            let mut j: usize = 0;
            while j < i
                invariant
                    n_locs == mine_locations@.len(),
                    0 <= j <= i < n_locs,
                    p == mine_locations@[i as int],
                    forall|j2: int| 0 <= j2 < j ==> mine_locations@[j2] != p,
                decreases i - j,
            {
                let q = mine_locations[j];
                if q.0 == p.0 && q.1 == p.1 {
                    proof {
                        assert(mine_locations@[j as int] == mine_locations@[i as int]);
                        assert(!mine_locations@.no_duplicates());
                    }
                    return Err(GameError::InvalidMineLocations);
                }
                j = j + 1;
            }
            i = i + 1;
        }
        proof {
            assert(mine_locations@.no_duplicates());
            assert forall|p: (i64, i64)| #[trigger] mine_locations@.contains(p) implies in_bounds(
                height,
                width,
                p.0,
                p.1,
            ) by {
                let j = choose|j: int|
                    0 <= j < mine_locations@.len() && mine_locations@[j] == p;
            }
            assert(mine_locations@.len() >= 1);
            assert(mine_locations@.contains(mine_locations@[0]));
            assert(valid_dims(height, width)) by {
                assert(in_bounds(height, width, mine_locations@[0].0, mine_locations@[0].1));
            }
        }
        let fields = generate_fields(height, width, &mine_locations);
        let table = BasicTable {
            height,
            width,
            mine_locations,
            number_of_opened_fields: 0,
            fields,
        };
        proof {
            assert forall|rr: i64, cc: i64| in_bounds(height, width, rr, cc) implies (
            #[trigger] table.cell(rr, cc).state) is Closed by {
                lemma_idx_bounds(height, width, rr, cc);
            }
            assert(table.wf()) by {
                assert forall|rr: i64, cc: i64| in_bounds(height, width, rr, cc) implies ((
                #[trigger] table.cell(rr, cc).field_type is Mine) <==> table.mines().contains(
                    (rr, cc),
                )) by {
                    lemma_idx_bounds(height, width, rr, cc);
                }
                assert forall|rr: i64, cc: i64|
                    in_bounds(height, width, rr, cc) implies match #[trigger] table.cell(
                    rr,
                    cc,
                ).field_type {
                    FieldType::Mine => true,
                    FieldType::Empty => nbr_mine_count(table.mines(), height, width, rr, cc)
                        == 0,
                    FieldType::Numbered(n) => 1 <= n <= 8 && n == nbr_mine_count(
                        table.mines(),
                        height,
                        width,
                        rr,
                        cc,
                    ),
                } by {
                    lemma_idx_bounds(height, width, rr, cc);
                    crate::geometry::lemma_nbr_mine_count_bounds(
                        table.mines(),
                        height,
                        width,
                        rr,
                        cc,
                    );
                }
                assert(count_opened(table.grid()) == 0) by {
                    lemma_counts_zero(table.grid());
                    assert forall|i2: int| 0 <= i2 < table.grid().len() implies opened_ind(
                        #[trigger] table.grid()[i2],
                    ) == 0 by {
                        lemma_coords_of_idx(height, width, i2);
                        let rr = (i2 / (width as int)) as i64;
                        let cc = (i2 % (width as int)) as i64;
                        assert(table.cell(rr, cc).state is Closed);
                    }
                }
                assert(count_mines(table.grid()) == table.mines().len()) by {
                    assert forall|rr: i64, cc: i64|
                        in_bounds(height, width, rr, cc) implies ((table.grid()[idx(
                        width,
                        rr,
                        cc,
                    )].field_info.field_type is Mine) <==> #[trigger] table.mines().contains(
                        (rr, cc),
                    )) by {
                        lemma_idx_bounds(height, width, rr, cc);
                    }
                    lemma_mine_count_matches_list(table.grid(), height, width, table.mines());
                }
            }
        }
        Ok(table)
    }

    /// Build a board with randomly placed mines. Validates the sizes, places
    /// the mines, and computes every non-mine cell's value.
    pub fn new(height: i64, width: i64, number_of_mines: i64) -> (r: Result<
        BasicTable,
        GameError,
    >)
        ensures
            r is Ok <==> (sizes_ok(height, width, number_of_mines as int) && height > 0 && width
                > 0),
            !dims_fit(height, width) ==> r == Err::<BasicTable, GameError>(
                GameError::TooManyFields,
            ),
            dims_fit(height, width) && number_of_mines > height * width - 1 ==> r == Err::<
                BasicTable,
                GameError,
            >(GameError::TooManyMines),
            dims_fit(height, width) && number_of_mines <= height * width - 1 && number_of_mines
                < 1 ==> r == Err::<BasicTable, GameError>(GameError::TooFewMines),
            sizes_ok(height, width, number_of_mines as int) && (height <= 0 || width <= 0) ==> r
                == Err::<BasicTable, GameError>(GameError::InvalidMineLocations),
            r is Ok ==> {
                &&& r->Ok_0.wf()
                &&& r->Ok_0.spec_height() == height
                &&& r->Ok_0.spec_width() == width
                &&& r->Ok_0.mines().len() == number_of_mines
                &&& r->Ok_0.opened_count() == 0
                &&& forall|rr: i64, cc: i64|
                    in_bounds(height, width, rr, cc) ==> (#[trigger] r->Ok_0.cell(
                        rr,
                        cc,
                    ).state) is Closed
            },
    {
        let mine_locations = generate_mine_locations(height, width, number_of_mines)?;
        BasicTable::with_custom_mines(height, width, mine_locations)
    }

    pub fn width(&self) -> (r: i64)
        ensures
            r == self.spec_width(),
    {
        self.width
    }

    pub fn height(&self) -> (r: i64)
        ensures
            r == self.spec_height(),
    {
        self.height
    }

    /// Fails with `InvalidIndex` exactly when the coordinate is out of bounds.
    pub fn validate_indices(&self, row: i64, col: i64) -> (r: Result<(), GameError>)
        ensures
            r is Ok <==> in_bounds(self.spec_height(), self.spec_width(), row, col),
            r is Err ==> r == Err::<(), GameError>(GameError::InvalidIndex),
    {
        if row < 0 || row >= self.height || col < 0 || col >= self.width {
            Err(GameError::InvalidIndex)
        } else {
            Ok(())
        }
    }

    /// Read the cell at an in-bounds coordinate.
    pub(crate) fn get_field_unchecked(&self, row: i64, col: i64) -> (r: FieldInner)
        requires
            self.frame_wf(),
            in_bounds(self.spec_height(), self.spec_width(), row, col),
        ensures
            r.field_info == self.cell(row, col),
    {
        proof {
            lemma_idx_bounds(self.height, self.width, row, col);
        }
        let n = self.fields.len();
        let i: i64 = row * self.width + col;
        proof {
            assert((i as int) < (n as int));
        }
        self.fields[i as usize]
    }

    /// Replace the cell at an in-bounds coordinate.
    pub(crate) fn set_field_unchecked(&mut self, row: i64, col: i64, f: FieldInner)
        requires
            old(self).frame_wf(),
            in_bounds(old(self).spec_height(), old(self).spec_width(), row, col),
        ensures
            final(self).grid() == old(self).grid().update(
                idx(old(self).spec_width(), row, col),
                f,
            ),
            final(self).spec_height() == old(self).spec_height(),
            final(self).spec_width() == old(self).spec_width(),
            final(self).mines() == old(self).mines(),
            final(self).opened_count() == old(self).opened_count(),
            final(self).frame_wf(),
            final(self).cell(row, col) == f.field_info,
            forall|r: i64, c: i64|
                in_bounds(old(self).spec_height(), old(self).spec_width(), r, c) && (r, c) != (
                    row,
                    col,
                ) ==> #[trigger] final(self).cell(r, c) == old(self).cell(r, c),
    {
        proof {
            lemma_idx_bounds(self.height, self.width, row, col);
        }
        let n = self.fields.len();
        let i: i64 = row * self.width + col;
        proof {
            assert((i as int) < (n as int));
        }
        self.fields.set(i as usize, f);
        proof {
            assert forall|r: i64, c: i64|
                in_bounds(self.spec_height(), self.spec_width(), r, c) && (r, c) != (
                    row,
                    col,
                ) implies #[trigger] self.cell(r, c) == old(self).cell(r, c) by {
                lemma_idx_bounds(self.height, self.width, r, c);
                if idx(self.spec_width(), r, c) == idx(self.spec_width(), row, col) {
                    crate::geometry::lemma_idx_injective(
                        self.height,
                        self.width,
                        r,
                        c,
                        row,
                        col,
                    );
                }
            }
        }
    }

    /// Count one more opened cell.
    pub(crate) fn increment_opened_count(&mut self)
        requires
            old(self).opened_count() < i64::MAX,
        ensures
            final(self).opened_count() == old(self).opened_count() + 1,
            final(self).grid() == old(self).grid(),
            final(self).mines() == old(self).mines(),
            final(self).spec_height() == old(self).spec_height(),
            final(self).spec_width() == old(self).spec_width(),
    {
        self.number_of_opened_fields = self.number_of_opened_fields + 1;
    }

    /// Replace one listed mine coordinate by another, which must not be
    /// listed. Everything else stays as it was.
    pub(crate) fn swap_mine_location(&mut self, row: i64, col: i64, new_row: i64, new_col: i64)
        requires
            old(self).mines().no_duplicates(),
            old(self).mines().contains((row, col)),
            !old(self).mines().contains((new_row, new_col)),
        ensures
            final(self).mines().no_duplicates(),
            final(self).mines().len() == old(self).mines().len(),
            forall|p: (i64, i64)|
                #[trigger] final(self).mines().contains(p) <==> ((old(self).mines().contains(p)
                    && p != (row, col)) || p == (new_row, new_col)),
            final(self).grid() == old(self).grid(),
            final(self).opened_count() == old(self).opened_count(),
            final(self).spec_height() == old(self).spec_height(),
            final(self).spec_width() == old(self).spec_width(),
    {
        let ghost olds = self.mine_locations@;
        let ghost tidx: int = olds.index_of((row, col));
        let mut updated: Vec<(i64, i64)> = Vec::new();
        let n = self.mine_locations.len();
        let mut i: usize = 0;
        while i < n
            invariant
                n == olds.len(),
                olds == self.mine_locations@,
                olds.no_duplicates(),
                0 <= i <= n,
                0 <= tidx < n,
                olds[tidx] == (row, col),
                updated@.no_duplicates(),
                updated@.len() == if i <= tidx {
                    i as int
                } else {
                    i - 1
                },
                forall|p: (i64, i64)|
                    #[trigger] updated@.contains(p) <==> (exists|j: int|
                        0 <= j < i && olds[j] == p && p != (row, col)),
            decreases n - i,
        {
            let p = self.mine_locations[i];
            if !(p.0 == row && p.1 == col) {
                proof {
                    if updated@.contains(p) {
                        let j = choose|j: int| 0 <= j < i && olds[j] == p && p != (row, col);
                        assert(olds[j] == olds[i as int]);
                    }
                    assert(i != tidx);
                }
                updated.push(p);
                proof {
                    crate::visiter::lemma_push_no_duplicates(
                        updated@.drop_last(),
                        p,
                    );
                    assert(updated@.drop_last().push(p) =~= updated@);
                    assert forall|q: (i64, i64)| #[trigger] updated@.contains(q) implies (exists|
                        j: int,
                    |
                        0 <= j < i + 1 && olds[j] == q && q != (row, col)) by {
                        if updated@.drop_last().contains(q) {
                            let j = choose|j: int|
                                0 <= j < i && olds[j] == q && q != (row, col);
                            assert(0 <= j < i + 1 && olds[j] == q);
                        } else {
                            assert(q == p);
                            assert(olds[i as int] == q);
                        }
                    }
                }
            } else {
                proof {
                    assert(olds[i as int] == (row, col));
                    assert(i == tidx);
                }
            }
            i = i + 1;
            proof {
                assert forall|q: (i64, i64)|
                    (exists|j: int| 0 <= j < i && olds[j] == q && q != (row, col))
                        implies #[trigger] updated@.contains(q) by {
                    let j = choose|j: int| 0 <= j < i && olds[j] == q && q != (row, col);
                }
            }
        }
        proof {
            if updated@.contains((new_row, new_col)) {
                let j = choose|j: int|
                    0 <= j < n && olds[j] == (new_row, new_col) && (new_row, new_col) != (
                    row,
                    col,
                );
                assert(olds.contains((new_row, new_col)));
            }
        }
        let ghost before_push = updated@;
        updated.push((new_row, new_col));
        self.mine_locations = updated;
        proof {
            crate::visiter::lemma_push_no_duplicates(before_push, (new_row, new_col));
            assert forall|p: (i64, i64)| #[trigger]
                self.mine_locations@.contains(p) <==> ((olds.contains(p) && p != (row, col)) || p
                    == (new_row, new_col)) by {
                if self.mine_locations@.contains(p) {
                    let k = choose|k: int|
                        0 <= k < self.mine_locations@.len() && self.mine_locations@[k] == p;
                    if k < before_push.len() {
                        assert(before_push[k] == p);
                        assert(before_push.contains(p));
                        let j = choose|j: int| 0 <= j < n && olds[j] == p && p != (row, col);
                        assert(olds.contains(p));
                    }
                }
                if olds.contains(p) && p != (row, col) {
                    let j = choose|j: int| 0 <= j < olds.len() && olds[j] == p;
                    assert(before_push.contains(p));
                    let k = choose|k: int| 0 <= k < before_push.len() && before_push[k] == p;
                    assert(self.mine_locations@[k] == p);
                }
                if p == (new_row, new_col) {
                    assert(self.mine_locations@[self.mine_locations@.len() - 1] == p);
                }
            }
        }
    }

    /// The opened-cell counter, as the code reads it.
    pub(crate) fn opened_fields_count(&self) -> (r: i64)
        ensures
            r == self.opened_count(),
    {
        self.number_of_opened_fields
    }

    /// The number of listed mines.
    pub(crate) fn mine_locations_len(&self) -> (r: usize)
        ensures
            r == self.mines().len(),
    {
        self.mine_locations.len()
    }

    /// One listed mine coordinate.
    pub(crate) fn mine_location_at(&self, i: usize) -> (r: (i64, i64))
        requires
            i < self.mines().len(),
        ensures
            r == self.mines()[i as int],
    {
        self.mine_locations[i]
    }

    /// The neighbors of a cell, delegated to the free function.
    pub fn get_neighbor_fields(&self, row: i64, col: i64) -> (r: Vec<(i64, i64)>)
        requires
            self.frame_wf(),
            in_bounds(self.spec_height(), self.spec_width(), row, col),
        ensures
            r@.no_duplicates(),
            forall|p: (i64, i64)| #[trigger]
                r@.contains(p) <==> in_bounds(self.spec_height(), self.spec_width(), p.0, p.1)
                    && crate::geometry::is_neighbor(row, col, p.0, p.1),
            r@.len() <= 8,
    {
        crate::geometry::get_neighbor_fields(self.height, self.width, row, col)
    }

    /// The mine-neighbor count of a cell, delegated to the free function.
    pub fn get_field_value(&self, row: i64, col: i64) -> (r: Result<u8, GameError>)
        requires
            self.frame_wf(),
            in_bounds(self.spec_height(), self.spec_width(), row, col),
        ensures
            self.mines().contains((row, col)) ==> r == Err::<u8, GameError>(
                GameError::MineHasNoValue,
            ),
            !self.mines().contains((row, col)) ==> r == Ok::<u8, GameError>(
                nbr_mine_count(self.mines(), self.spec_height(), self.spec_width(), row, col)
                    as u8,
            ),
    {
        crate::geometry::get_field_value(self.height, self.width, row, col, &self.mine_locations)
    }

    /// Whether every non-mine cell is opened: the win condition,
    /// `mines + opened == cells`.
    pub fn all_fields_are_open(&self) -> (r: bool)
        requires
            self.wf(),
        ensures
            r == (self.mines().len() + self.opened_count() == self.spec_height()
                * self.spec_width()),
    {
        proof {
            lemma_counts_bounds(self.grid());
            crate::geometry::lemma_i64_product_fits_i128(
                self.width as i128,
                self.height as i128,
            );
        }
        let n_mines: i64 = self.mine_locations.len() as i64;
        proof {
            assert((self.width as i128) * (self.height as i128) == (self.spec_height() as int) * (
            self.spec_width() as int)) by (nonlinear_arith);
        }
        (self.width as i128) * (self.height as i128) == (n_mines as i128) + (
        self.number_of_opened_fields as i128)
    }

    /// The number of flagged cells among the eight neighbors of `(row, col)`.
    pub(crate) fn count_flagged_neighbors(&self, row: i64, col: i64) -> (r: u8)
        requires
            self.wf(),
            in_bounds(self.spec_height(), self.spec_width(), row, col),
        ensures
            r == nbr_flag_count(self.grid(), self.spec_height(), self.spec_width(), row, col),
            0 <= r <= 8,
    {
        let mut n: u8 = 0;
        if row >= 1 && col >= 1 && self.flagged_at(row - 1, col - 1) {
            n = n + 1;
        }
        if row >= 1 && self.flagged_at(row - 1, col) {
            n = n + 1;
        }
        if row >= 1 && col + 1 < self.width && self.flagged_at(row - 1, col + 1) {
            n = n + 1;
        }
        if col >= 1 && self.flagged_at(row, col - 1) {
            n = n + 1;
        }
        if col + 1 < self.width && self.flagged_at(row, col + 1) {
            n = n + 1;
        }
        if row + 1 < self.height && col >= 1 && self.flagged_at(row + 1, col - 1) {
            n = n + 1;
        }
        if row + 1 < self.height && self.flagged_at(row + 1, col) {
            n = n + 1;
        }
        if row + 1 < self.height && col + 1 < self.width && self.flagged_at(row + 1, col + 1) {
            n = n + 1;
        }
        n
    }

    /// Whether the in-bounds cell at `(row, col)` is flagged.
    fn flagged_at(&self, row: i64, col: i64) -> (r: bool)
        requires
            self.frame_wf(),
            in_bounds(self.spec_height(), self.spec_width(), row, col),
        ensures
            r == (self.cell(row, col).state is Flagged),
            r == (flag_ind(self.grid(), self.spec_height(), self.spec_width(), row as int,
            col as int) == 1),
    {
        let f = self.get_field_unchecked(row, col);
        f.get_field_state().is_flagged()
    }

    /// The caller-facing view of a cell: state always, type only when opened.
    /// Fails with `InvalidIndex` exactly when the coordinate is out of bounds.
    pub fn get_field_info(&self, row: i64, col: i64) -> (r: Result<FieldInfo, GameError>)
        requires
            self.wf(),
        ensures
            r is Ok <==> in_bounds(self.spec_height(), self.spec_width(), row, col),
            r is Err ==> r == Err::<FieldInfo, GameError>(GameError::InvalidIndex),
            r is Ok ==> {
                &&& r->Ok_0.state == self.cell(row, col).state
                &&& (self.cell(row, col).state is Opened ==> r->Ok_0.field_type == self.cell(
                    row,
                    col,
                ).field_type)
                &&& (!(self.cell(row, col).state is Opened) ==> r->Ok_0.field_type is Empty)
            },
    {
        self.validate_indices(row, col)?;
        let f = self.get_field_unchecked(row, col);
        Ok(f.get_public_field_info())
    }

    /// Toggle the flag at a coordinate. Fails with `InvalidIndex` exactly when
    /// the coordinate is out of bounds; an opened cell reports `AlreadyOpened`
    /// and nothing changes.
    pub fn toggle_flag(&mut self, row: i64, col: i64) -> (r: Result<FlagResult, GameError>)
        requires
            old(self).wf(),
        ensures
            final(self).wf(),
            final(self).spec_height() == old(self).spec_height(),
            final(self).spec_width() == old(self).spec_width(),
            final(self).mines() == old(self).mines(),
            final(self).opened_count() == old(self).opened_count(),
            r is Ok <==> in_bounds(old(self).spec_height(), old(self).spec_width(), row, col),
            r is Err ==> r == Err::<FlagResult, GameError>(GameError::InvalidIndex) && *final(self)
                == *old(self),
            r is Ok ==> {
                &&& (old(self).cell(row, col).state is Flagged ==> r == Ok::<
                    FlagResult,
                    GameError,
                >(FlagResult::FlagRemoved) && final(self).cell(row, col).state is Closed)
                &&& (old(self).cell(row, col).state is Closed ==> r == Ok::<
                    FlagResult,
                    GameError,
                >(FlagResult::Flagged) && final(self).cell(row, col).state is Flagged)
                &&& (old(self).cell(row, col).state is Opened ==> r == Ok::<
                    FlagResult,
                    GameError,
                >(FlagResult::AlreadyOpened) && *final(self) == *old(self))
                &&& final(self).cell(row, col).field_type == old(self).cell(row, col).field_type
                &&& forall|rr: i64, cc: i64|
                    in_bounds(old(self).spec_height(), old(self).spec_width(), rr, cc) && (rr, cc)
                        != (row, col) ==> #[trigger] final(self).cell(rr, cc) == old(self).cell(
                        rr,
                        cc,
                    )
            },
    {
        self.validate_indices(row, col)?;
        let mut f = self.get_field_unchecked(row, col);
        let result = f.toggle_flag();
        if !matches!(result, FlagResult::AlreadyOpened) {
            let ghost j = idx(self.spec_width(), row, col);
            self.set_field_unchecked(row, col, f);
            proof {
                lemma_idx_bounds(self.height, self.width, row, col);
                lemma_counts_update(old(self).grid(), j, f);
                assert(opened_ind(old(self).grid()[j]) == opened_ind(f));
                assert(mine_cell_ind(old(self).grid()[j]) == mine_cell_ind(f));
                assert(self.wf()) by {
                    assert forall|r2: i64, c2: i64|
                        in_bounds(self.spec_height(), self.spec_width(), r2, c2)
                            implies ((#[trigger] self.cell(r2, c2).field_type is Mine)
                        <==> self.mines().contains((r2, c2))) by {
                        if (r2, c2) != (row, col) {
                            assert(self.cell(r2, c2) == old(self).cell(r2, c2));
                        }
                    }
                }
            }
        }
        Ok(result)
    }
}

} // verus!
