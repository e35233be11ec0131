//! Counting cells of a grid: how many are opened non-mines, how many are
//! mines, and how those counts relate to the board's mine list. These counts
//! back the win condition and the bound
//! `mine_locations.len() + opened_count <= height * width`.

use vstd::prelude::*;

use crate::field::{FieldInfo, FieldInner, FieldType};
use crate::geometry::{idx, in_bounds, lemma_coords_of_idx, lemma_idx_bounds, lemma_idx_injective};

verus! {

/// Indicator: an opened cell that is not a mine. These are the cells the
/// board's opened counter counts.
pub open spec fn opened_ind(f: FieldInner) -> int {
    if f.field_info.state is Opened && !(f.field_info.field_type is Mine) {
        1int
    } else {
        0int
    }
}

/// Indicator: a mine cell.
pub open spec fn mine_cell_ind(f: FieldInner) -> int {
    if f.field_info.field_type is Mine {
        1int
    } else {
        0int
    }
}

/// The number of opened non-mine cells of a grid.
pub open spec fn count_opened(s: Seq<FieldInner>) -> int
    decreases s.len(),
{
    if s.len() == 0 {
        0
    } else {
        count_opened(s.drop_last()) + opened_ind(s.last())
    }
}

/// The number of mine cells of a grid.
pub open spec fn count_mines(s: Seq<FieldInner>) -> int
    decreases s.len(),
{
    if s.len() == 0 {
        0
    } else {
        count_mines(s.drop_last()) + mine_cell_ind(s.last())
    }
}

pub proof fn lemma_counts_bounds(s: Seq<FieldInner>)
    ensures
        0 <= count_opened(s),
        0 <= count_mines(s),
        count_opened(s) + count_mines(s) <= s.len(),
    decreases s.len(),
{
    if s.len() > 0 {
        lemma_counts_bounds(s.drop_last());
    }
}

/// Replacing one cell shifts each count by the difference of the indicators.
pub proof fn lemma_counts_update(s: Seq<FieldInner>, i: int, v: FieldInner)
    requires
        0 <= i < s.len(),
    ensures
        count_opened(s.update(i, v)) == count_opened(s) - opened_ind(s[i]) + opened_ind(v),
        count_mines(s.update(i, v)) == count_mines(s) - mine_cell_ind(s[i]) + mine_cell_ind(v),
    decreases s.len(),
{
    let t = s.update(i, v);
    if i == s.len() - 1 {
        assert(t.drop_last() =~= s.drop_last());
        assert(t.last() == v);
    } else {
        assert(t.drop_last() =~= s.drop_last().update(i, v));
        assert(t.last() == s.last());
        lemma_counts_update(s.drop_last(), i, v);
    }
}

/// No cell is an opened non-mine exactly when the opened count is zero;
/// likewise for mines.
pub proof fn lemma_counts_zero(s: Seq<FieldInner>)
    ensures
        count_opened(s) == 0 <==> forall|i: int|
            0 <= i < s.len() ==> opened_ind(#[trigger] s[i]) == 0,
        count_mines(s) == 0 <==> forall|i: int|
            0 <= i < s.len() ==> mine_cell_ind(#[trigger] s[i]) == 0,
    decreases s.len(),
{
    if s.len() > 0 {
        lemma_counts_zero(s.drop_last());
        lemma_counts_bounds(s.drop_last());
        assert(forall|i: int| 0 <= i < s.len() - 1 ==> #[trigger] s[i] == s.drop_last()[i]);
        assert(s.last() == s[s.len() - 1]);
    }
}

/// Every cell is a mine exactly when the mine count fills the whole grid.
pub proof fn lemma_mines_full(s: Seq<FieldInner>)
    ensures
        count_mines(s) == s.len() <==> forall|i: int|
            0 <= i < s.len() ==> (#[trigger] s[i]).field_info.field_type is Mine,
    decreases s.len(),
{
    if s.len() > 0 {
        lemma_mines_full(s.drop_last());
        lemma_counts_bounds(s.drop_last());
        assert(forall|i: int| 0 <= i < s.len() - 1 ==> #[trigger] s[i] == s.drop_last()[i]);
        assert(s.last() == s[s.len() - 1]);
    }
}

/// The player has won exactly when every cell is opened or a mine: the counts
/// fill the whole grid exactly in that case.
pub proof fn lemma_counts_full(s: Seq<FieldInner>)
    ensures
        count_opened(s) + count_mines(s) == s.len() <==> forall|i: int|
            0 <= i < s.len() ==> (#[trigger] s[i].field_info.state is Opened
                || s[i].field_info.field_type is Mine),
    decreases s.len(),
{
    if s.len() > 0 {
        lemma_counts_full(s.drop_last());
        lemma_counts_bounds(s.drop_last());
        assert(forall|i: int| 0 <= i < s.len() - 1 ==> #[trigger] s[i] == s.drop_last()[i]);
        assert(s.last() == s[s.len() - 1]);
    }
}

/// A grid whose mine cells are exactly the entries of a duplicate-free,
/// in-bounds mine list holds exactly as many mine cells as the list has
/// entries.
pub proof fn lemma_mine_count_matches_list(
    s: Seq<FieldInner>,
    height: i64,
    width: i64,
    mines: Seq<(i64, i64)>,
)
    requires
        0 < height,
        0 < width,
        s.len() == height * width,
        mines.no_duplicates(),
        forall|p: (i64, i64)| #[trigger] mines.contains(p) ==> in_bounds(height, width, p.0, p.1),
        forall|r: i64, c: i64|
            in_bounds(height, width, r, c) ==> ((s[idx(width, r, c)].field_info.field_type
                is Mine) <==> #[trigger] mines.contains((r, c))),
    ensures
        count_mines(s) == mines.len(),
    decreases mines.len(),
{
    if mines.len() == 0 {
        assert forall|i: int| 0 <= i < s.len() implies mine_cell_ind(#[trigger] s[i]) == 0 by {
            lemma_coords_of_idx(height, width, i);
            let r = (i / (width as int)) as i64;
            let c = (i % (width as int)) as i64;
            assert(!mines.contains((r, c)));
            assert(s[idx(width, r, c)] == s[i]);
        }
        lemma_counts_zero(s);
    } else {
        let m = mines.last();
        let rest = mines.drop_last();
        assert(mines.contains(m));
        lemma_idx_bounds(height, width, m.0, m.1);
        let j = idx(width, m.0, m.1);
        let cleared = FieldInner {
            field_info: FieldInfo { state: s[j].field_info.state, field_type: FieldType::Empty },
        };
        let t = s.update(j, cleared);
        assert forall|p: (i64, i64)| #[trigger] rest.contains(p) implies in_bounds(
            height,
            width,
            p.0,
            p.1,
        ) by {
            let i = choose|i: int| 0 <= i < rest.len() && rest[i] == p;
            assert(mines[i] == p);
            assert(mines.contains(p));
        }
        assert(!rest.contains(m)) by {
            if rest.contains(m) {
                let i = choose|i: int| 0 <= i < rest.len() && rest[i] == m;
                assert(mines[i] == mines[mines.len() - 1]);
            }
        }
        assert forall|r: i64, c: i64| in_bounds(height, width, r, c) implies ((t[idx(
            width,
            r,
            c,
        )].field_info.field_type is Mine) <==> #[trigger] rest.contains((r, c))) by {
            lemma_idx_bounds(height, width, r, c);
            if r == m.0 && c == m.1 {
                assert(t[idx(width, r, c)] == cleared);
            } else {
                if idx(width, r, c) == j {
                    lemma_idx_injective(height, width, r, c, m.0, m.1);
                }
                assert(t[idx(width, r, c)] == s[idx(width, r, c)]);
                if rest.contains((r, c)) {
                    let i = choose|i: int| 0 <= i < rest.len() && rest[i] == (r, c);
                    assert(mines[i] == (r, c));
                    assert(mines.contains((r, c)));
                }
                if mines.contains((r, c)) {
                    let i = choose|i: int| 0 <= i < mines.len() && mines[i] == (r, c);
                    assert(i != mines.len() - 1);
                    assert(rest[i] == (r, c));
                    assert(rest.contains((r, c)));
                }
            }
        }
        lemma_mine_count_matches_list(t, height, width, rest);
        lemma_counts_update(s, j, cleared);
        assert(mine_cell_ind(s[j]) == 1);
        assert(mine_cell_ind(cleared) == 0);
    }
}

/// A duplicate-free list of in-bounds coordinates has at most `height * width`
/// entries.
pub proof fn lemma_distinct_coords_bound(s: Seq<(i64, i64)>, height: i64, width: i64)
    requires
        0 < height,
        0 < width,
        s.no_duplicates(),
        forall|p: (i64, i64)| #[trigger] s.contains(p) ==> in_bounds(height, width, p.0, p.1),
    ensures
        s.len() <= height * width,
{
    let f = |p: (i64, i64)| idx(width, p.0, p.1);
    let t = s.map_values(f);
    assert(t.no_duplicates()) by {
        assert forall|i: int, j: int| 0 <= i < t.len() && 0 <= j < t.len() && i != j implies t[i]
            != t[j] by {
            assert(s.contains(s[i]) && s.contains(s[j]));
            assert(t[i] == f(s[i]) && t[j] == f(s[j]));
            if t[i] == t[j] {
                lemma_idx_injective(height, width, s[i].0, s[i].1, s[j].0, s[j].1);
            }
        }
    }
    t.unique_seq_to_set();
    let range = vstd::set_lib::set_int_range(0, height * width);
    vstd::set_lib::lemma_int_range(0, height * width);
    assert(t.to_set().subset_of(range)) by {
        assert forall|x: int| #[trigger] t.to_set().contains(x) implies range.contains(x) by {
            assert(t.contains(x));
            let i = choose|i: int| 0 <= i < t.len() && t[i] == x;
            assert(s.contains(s[i]));
            assert(x == f(s[i]));
            lemma_idx_bounds(height, width, s[i].0, s[i].1);
        }
    }
    vstd::set_lib::lemma_len_subset(t.to_set(), range);
}

} // verus!
