//! The traversal scratchpad behind flood fill: an insertion-ordered work list
//! of coordinates still to visit, and the set of coordinates already visited.
//! A coordinate is handed out at most once, which is what makes the fill
//! terminate and process each cell exactly once.
//!
//! The work list is `indexmap::IndexSet`, taken on trust through the wrappers
//! below; everything above the wrappers is verified against their contracts.

use vstd::prelude::*;

use crate::geometry::{contains_coord, in_bounds, is_neighbor, get_neighbor_fields, valid_dims};
use crate::results::GameError;

verus! {

broadcast use vstd::seq_lib::group_seq_properties;

/// Declaration of the outside collection type so that it can stand in fields
/// and signatures. Values of it are read only through the wrappers below.
#[verifier::external_type_specification]
#[verifier::external_body]
#[verifier::reject_recursive_types(T)]
#[verifier::reject_recursive_types(S)]
pub struct ExIndexSet<T, S>(indexmap::IndexSet<T, S>);

/// The coordinates an insertion-ordered set holds, oldest first.
pub uninterp spec fn index_set_contents(s: indexmap::IndexSet<(i64, i64)>) -> Seq<(i64, i64)>;

/// Relies on indexmap::IndexSet::new: a fresh set is empty.
#[verifier::external_body]
fn index_set_new() -> (s: indexmap::IndexSet<(i64, i64)>)
    ensures
        index_set_contents(s) == Seq::<(i64, i64)>::empty(),
{
    indexmap::IndexSet::new()
}

/// Relies on indexmap::IndexSet::insert: an absent value is appended at the
/// end and `true` comes back; a present value leaves the set unchanged and
/// `false` comes back.
#[verifier::external_body]
fn index_set_insert(s: &mut indexmap::IndexSet<(i64, i64)>, value: (i64, i64)) -> (r: bool)
    ensures
        r == !index_set_contents(*old(s)).contains(value),
        r ==> index_set_contents(*final(s)) == index_set_contents(*old(s)).push(value),
        !r ==> index_set_contents(*final(s)) == index_set_contents(*old(s)),
{
    s.insert(value)
}

/// Relies on indexmap::IndexSet::pop: the last value is removed and returned;
/// an empty set stays empty and `None` comes back.
#[verifier::external_body]
fn index_set_pop(s: &mut indexmap::IndexSet<(i64, i64)>) -> (r: Option<(i64, i64)>)
    ensures
        index_set_contents(*old(s)).len() == 0 ==> r is None && index_set_contents(*final(s))
            == index_set_contents(*old(s)),
        index_set_contents(*old(s)).len() > 0 ==> r == Some(
            index_set_contents(*old(s)).last(),
        ) && index_set_contents(*final(s)) == index_set_contents(*old(s)).drop_last(),
{
    s.pop()
}

/// Relies on indexmap::IndexSet::is_empty.
#[verifier::external_body]
fn index_set_is_empty(s: &indexmap::IndexSet<(i64, i64)>) -> (r: bool)
    ensures
        r == (index_set_contents(*s).len() == 0),
{
    s.is_empty()
}

/// Dropping the last entry of a duplicate-free sequence keeps it
/// duplicate-free, loses exactly that entry, and keeps the rest.
proof fn lemma_drop_last_no_duplicates(s: Seq<(i64, i64)>)
    requires
        s.len() > 0,
        s.no_duplicates(),
    ensures
        s.drop_last().no_duplicates(),
        !s.drop_last().contains(s.last()),
        forall|p: (i64, i64)| #[trigger] s.drop_last().contains(p) ==> s.contains(p),
{
    let d = s.drop_last();
    assert(forall|i: int| 0 <= i < d.len() ==> d[i] == s[i]);
    if d.contains(s.last()) {
        let i = choose|i: int| 0 <= i < d.len() && d[i] == s.last();
        assert(s[i] == s[s.len() - 1]);
    }
    assert forall|p: (i64, i64)| #[trigger] d.contains(p) implies s.contains(p) by {
        let i = choose|i: int| 0 <= i < d.len() && d[i] == p;
        assert(s[i] == p);
    }
}

/// Appending a value a duplicate-free sequence lacks keeps it duplicate-free.
pub(crate) proof fn lemma_push_no_duplicates(s: Seq<(i64, i64)>, v: (i64, i64))
    requires
        s.no_duplicates(),
        !s.contains(v),
    ensures
        s.push(v).no_duplicates(),
{
    let t = s.push(v);
    assert forall|i: int, j: int| 0 <= i < t.len() && 0 <= j < t.len() && i != j implies t[i]
        != t[j] by {
        if i < s.len() && j < s.len() {
        } else if i < s.len() {
            assert(s.contains(s[i]) && t[j] == v);
        } else {
            assert(s.contains(s[j]) && t[i] == v);
        }
    }
}

/// A traversal scratchpad: coordinates still to visit, in insertion order,
/// and coordinates already visited. The two never overlap.
pub struct FieldVisiter {
    height: i64,
    width: i64,
    fields_to_visit: indexmap::IndexSet<(i64, i64)>,
    visited_fields: Vec<(i64, i64)>,
}

impl FieldVisiter {
    pub closed spec fn spec_height(self) -> i64 {
        self.height
    }

    pub closed spec fn spec_width(self) -> i64 {
        self.width
    }

    /// The work list, oldest entry first.
    pub closed spec fn to_visit(self) -> Seq<(i64, i64)> {
        index_set_contents(self.fields_to_visit)
    }

    /// The coordinates already handed out by `next`.
    pub closed spec fn visited(self) -> Seq<(i64, i64)> {
        self.visited_fields@
    }

    /// Both lists are duplicate-free, in-bounds, and disjoint.
    pub open spec fn wf(self) -> bool {
        &&& valid_dims(self.spec_height(), self.spec_width())
        &&& self.to_visit().no_duplicates()
        &&& self.visited().no_duplicates()
        &&& forall|p: (i64, i64)|
            #[trigger] self.to_visit().contains(p) ==> in_bounds(
                self.spec_height(),
                self.spec_width(),
                p.0,
                p.1,
            )
        &&& forall|p: (i64, i64)|
            #[trigger] self.visited().contains(p) ==> in_bounds(
                self.spec_height(),
                self.spec_width(),
                p.0,
                p.1,
            )
        &&& forall|p: (i64, i64)|
            #[trigger] self.to_visit().contains(p) ==> !self.visited().contains(p)
    }

    /// Start a traversal at one coordinate. Fails with `InvalidIndex` exactly
    /// when the coordinate is out of bounds.
    pub fn new(height: i64, width: i64, row: i64, col: i64) -> (r: Result<FieldVisiter, GameError>)
        requires
            valid_dims(height, width),
        ensures
            r is Ok <==> in_bounds(height, width, row, col),
            r is Err ==> r == Err::<FieldVisiter, GameError>(GameError::InvalidIndex),
            r is Ok ==> {
                &&& r->Ok_0.wf()
                &&& r->Ok_0.spec_height() == height
                &&& r->Ok_0.spec_width() == width
                &&& r->Ok_0.to_visit() == seq![(row, col)]
                &&& r->Ok_0.visited() == Seq::<(i64, i64)>::empty()
            },
    {
        if row < 0 || row >= height || col < 0 || col >= width {
            return Err(GameError::InvalidIndex);
        }
        let mut fields_to_visit = index_set_new();
        index_set_insert(&mut fields_to_visit, (row, col));
        proof {
            assert(index_set_contents(fields_to_visit) =~= seq![(row, col)]);
        }
        Ok(FieldVisiter { height, width, fields_to_visit, visited_fields: Vec::new() })
    }

    /// Add every in-bounds neighbor of `(row, col)` that was not yet visited
    /// to the work list. Already-visited coordinates are never re-added.
    pub fn extend_with_unvisited_neighbors(&mut self, row: i64, col: i64)
        requires
            old(self).wf(),
            in_bounds(old(self).spec_height(), old(self).spec_width(), row, col),
        ensures
            final(self).wf(),
            final(self).spec_height() == old(self).spec_height(),
            final(self).spec_width() == old(self).spec_width(),
            final(self).visited() == old(self).visited(),
            forall|p: (i64, i64)|
                #[trigger] final(self).to_visit().contains(p) <==> (old(
                    self,
                ).to_visit().contains(p) || (in_bounds(
                    old(self).spec_height(),
                    old(self).spec_width(),
                    p.0,
                    p.1,
                ) && is_neighbor(row, col, p.0, p.1) && !old(self).visited().contains(p))),
    {
        let neighbors = get_neighbor_fields(self.height, self.width, row, col);
        let n = neighbors.len();
        let mut i: usize = 0;
        while i < n
            invariant
                0 <= i <= n,
                n == neighbors@.len(),
                neighbors@.no_duplicates(),
                forall|p: (i64, i64)|
                    #[trigger] neighbors@.contains(p) <==> in_bounds(
                        self.height,
                        self.width,
                        p.0,
                        p.1,
                    ) && is_neighbor(row, col, p.0, p.1),
                self.wf(),
                self.height == old(self).spec_height(),
                self.width == old(self).spec_width(),
                self.visited() == old(self).visited(),
                forall|p: (i64, i64)|
                    #[trigger] self.to_visit().contains(p) <==> (old(self).to_visit().contains(p)
                        || (exists|j: int|
                        0 <= j < i && neighbors@[j] == p && !old(self).visited().contains(p))),
            decreases n - i,
        {
            let p = neighbors[i];
            proof {
                assert(neighbors@.contains(p));
                assert(p == (p.0, p.1));
            }
            let ghost before = self.to_visit();
            let visited_has = contains_coord(&self.visited_fields, p.0, p.1);
            if !visited_has {
                let inserted = index_set_insert(&mut self.fields_to_visit, p);
                proof {
                    if inserted {
                        lemma_push_no_duplicates(before, p);
                    }
                }
            }
            i = i + 1;
            proof {
                let now = self.to_visit();
                assert forall|q: (i64, i64)| #[trigger] now.contains(q) implies (old(
                    self,
                ).to_visit().contains(q) || (exists|j: int|
                    0 <= j < i && neighbors@[j] == q && !old(self).visited().contains(q))) by {
                    if before.contains(q) {
                        assert(old(self).to_visit().contains(q) || (exists|j: int|
                            0 <= j < i - 1 && neighbors@[j] == q && !old(self).visited().contains(
                                q,
                            )));
                        if exists|j: int|
                            0 <= j < i - 1 && neighbors@[j] == q && !old(self).visited().contains(
                                q,
                            ) {
                            let j = choose|j: int|
                                0 <= j < i - 1 && neighbors@[j] == q && !old(
                                    self,
                                ).visited().contains(q);
                            assert(0 <= j < i && neighbors@[j] == q);
                        }
                    } else {
                        assert(q == p);
                        assert(neighbors@[i - 1] == q && !old(self).visited().contains(q));
                    }
                }
                assert forall|q: (i64, i64)|
                    (old(self).to_visit().contains(q) || (exists|j: int|
                        0 <= j < i && neighbors@[j] == q && !old(self).visited().contains(q)))
                        implies #[trigger] now.contains(q) by {
                    if old(self).to_visit().contains(q) {
                        assert(before.contains(q));
                        assert(now.contains(q));
                    } else {
                        let j = choose|j: int|
                            0 <= j < i && neighbors@[j] == q && !old(self).visited().contains(q);
                        if j < i - 1 {
                            assert(before.contains(q));
                            assert(now.contains(q));
                        } else {
                            assert(q == p);
                            assert(now.contains(q));
                        }
                    }
                }
            }
        }
        proof {
            assert forall|p: (i64, i64)| #[trigger]
                self.to_visit().contains(p) <==> (old(self).to_visit().contains(p) || (in_bounds(
                    old(self).spec_height(),
                    old(self).spec_width(),
                    p.0,
                    p.1,
                ) && is_neighbor(row, col, p.0, p.1) && !old(self).visited().contains(p))) by {
                if exists|j: int|
                    0 <= j < n && neighbors@[j] == p && !old(self).visited().contains(p) {
                    let j = choose|j: int|
                        0 <= j < n && neighbors@[j] == p && !old(self).visited().contains(p);
                    assert(neighbors@.contains(p));
                }
                if in_bounds(old(self).spec_height(), old(self).spec_width(), p.0, p.1)
                    && is_neighbor(row, col, p.0, p.1) && !old(self).visited().contains(p) {
                    assert(neighbors@.contains(p));
                    let j = choose|j: int| 0 <= j < n && neighbors@[j] == p;
                }
            }
        }
    }

    /// Whether the work list still holds a coordinate.
    pub fn has_next(&self) -> (r: bool)
        ensures
            r == (self.to_visit().len() > 0),
    {
        !index_set_is_empty(&self.fields_to_visit)
    }

    /// Remove and return the most recently added coordinate of the work list
    /// and mark it visited; `None` when the work list is empty.
    pub fn next(&mut self) -> (r: Option<(i64, i64)>)
        requires
            old(self).wf(),
        ensures
            final(self).wf(),
            final(self).spec_height() == old(self).spec_height(),
            final(self).spec_width() == old(self).spec_width(),
            old(self).to_visit().len() == 0 ==> r is None && final(self).to_visit() == old(
                self,
            ).to_visit() && final(self).visited() == old(self).visited(),
            old(self).to_visit().len() > 0 ==> {
                &&& r == Some(old(self).to_visit().last())
                &&& final(self).to_visit() == old(self).to_visit().drop_last()
                &&& final(self).visited() == old(self).visited().push(old(self).to_visit().last())
                &&& !old(self).visited().contains(old(self).to_visit().last())
                &&& in_bounds(
                    old(self).spec_height(),
                    old(self).spec_width(),
                    old(self).to_visit().last().0,
                    old(self).to_visit().last().1,
                )
            },
    {
        if !index_set_is_empty(&self.fields_to_visit) {
            let ghost before = self.to_visit();
            let result = match index_set_pop(&mut self.fields_to_visit) {
                Some(p) => p,
                None => (0, 0),  // unreachable: the work list is not empty
            };
            proof {
                assert(before.contains(result)) by {
                    assert(before[before.len() - 1] == result);
                }
                lemma_drop_last_no_duplicates(before);
            }
            self.visited_fields.push(result);
            proof {
                lemma_push_no_duplicates(old(self).visited(), result);
                assert forall|p: (i64, i64)| #[trigger] self.visited().contains(p) implies old(
                    self,
                ).visited().contains(p) || p == result by {
                    let k = choose|k: int|
                        0 <= k < self.visited().len() && self.visited()[k] == p;
                    if k < old(self).visited().len() {
                        assert(old(self).visited()[k] == p);
                    }
                }
            }
            Some(result)
        } else {
            None
        }
    }
}

} // verus!
