//! Which physical entities collide in a frame.

use vstd::prelude::*;
use crate::animation::Animation;
use crate::entity::Entity;
use crate::geometry::boxes_intersect;

verus! {

/// Entities `i` and `j` collide: both are physical, neither is marked, and
/// their boxes intersect.
pub open spec fn collides(s: Seq<Entity>, deleted: Seq<bool>, i: int, j: int) -> bool {
    &&& s[i].physical && s[j].physical
    &&& !deleted[i] && !deleted[j]
    &&& boxes_intersect(s[i].bounds(), s[j].bounds())
}

/// The pairs `(i, j)` of colliding entities with `i < j < upto`, by `j`.
pub open spec fn row_pairs(s: Seq<Entity>, deleted: Seq<bool>, i: int, upto: int) -> Seq<
    (int, int),
>
    decreases upto - i,
{
    if upto <= i + 1 {
        Seq::empty()
    } else {
        let before = row_pairs(s, deleted, i, upto - 1);
        if collides(s, deleted, i, upto - 1) {
            before.push((i, upto - 1))
        } else {
            before
        }
    }
}

/// The pairs `(i, j)` of colliding entities with `i < rows` and `i < j`, by
/// `i` and then by `j`.
pub open spec fn pairs_below(s: Seq<Entity>, deleted: Seq<bool>, rows: int) -> Seq<(int, int)>
    decreases rows,
{
    if rows <= 0 {
        Seq::empty()
    } else {
        pairs_below(s, deleted, rows - 1) + row_pairs(s, deleted, rows - 1, s.len() as int)
    }
}

/// The collisions of a frame: every pair of colliding entities once, the
/// entity that stands first in the scheduler named first.
pub open spec fn collision_pairs(s: Seq<Entity>, deleted: Seq<bool>) -> Seq<(int, int)> {
    pairs_below(s, deleted, s.len() as int)
}

/// The names of the entities at the places that `places` gives.
pub open spec fn pair_names(s: Seq<Entity>, places: Seq<(int, int)>) -> Seq<(String, String)> {
    Seq::new(places.len(), |t: int| (s[places[t].0].name, s[places[t].1].name))
}

/// `pairs` names the entities at the places that `places` gives.
pub open spec fn named_pairs(
    s: Seq<Entity>,
    places: Seq<(int, int)>,
    pairs: Seq<(String, String)>,
) -> bool {
    &&& pairs.len() == places.len()
    &&& forall|t: int|
        0 <= t < places.len() ==> (#[trigger] pairs[t]).0 == s[places[t].0].name && pairs[t].1
            == s[places[t].1].name
}

/// The pair `p` comes before the pair `q`.
pub open spec fn pair_before(p: (int, int), q: (int, int)) -> bool {
    p.0 < q.0 || (p.0 == q.0 && p.1 < q.1)
}

/// A row holds the collisions of its entity with those after it, and nothing
/// else, in rising order.
pub proof fn lemma_row_pairs(s: Seq<Entity>, deleted: Seq<bool>, i: int, upto: int)
    ensures
        forall|t: int|
            0 <= t < row_pairs(s, deleted, i, upto).len() ==> {
                let p = #[trigger] row_pairs(s, deleted, i, upto)[t];
                p.0 == i && i < p.1 < upto && collides(s, deleted, i, p.1)
            },
        forall|t: int, u: int|
            0 <= t < u < row_pairs(s, deleted, i, upto).len() ==> (#[trigger] row_pairs(
                s,
                deleted,
                i,
                upto,
            )[t]).1 < (#[trigger] row_pairs(s, deleted, i, upto)[u]).1,
        forall|j: int|
            i < j < upto && collides(s, deleted, i, j) ==> exists|t: int|
                0 <= t < row_pairs(s, deleted, i, upto).len() && row_pairs(s, deleted, i, upto)[t]
                    == (i, j),
        row_pairs(s, deleted, i, upto).len() <= if upto > i {
            upto - i - 1
        } else {
            0
        },
    decreases upto - i,
{
    if upto > i + 1 {
        lemma_row_pairs(s, deleted, i, upto - 1);
        let before = row_pairs(s, deleted, i, upto - 1);
        let row = row_pairs(s, deleted, i, upto);
        assert forall|j: int| i < j < upto && collides(s, deleted, i, j) implies exists|t: int|
            0 <= t < row.len() && row[t] == (i, j) by {
            if j < upto - 1 {
                let t = choose|t: int| 0 <= t < before.len() && before[t] == (i, j);
                assert(row[t] == (i, j));
            } else {
                assert(row[row.len() - 1] == (i, j));
            }
        }
    }
}

/// The rows below `rows` hold the collisions of their entities, and nothing
/// else, in rising order.
pub proof fn lemma_pairs_below(s: Seq<Entity>, deleted: Seq<bool>, rows: int)
    requires
        rows <= s.len(),
    ensures
        forall|t: int|
            0 <= t < pairs_below(s, deleted, rows).len() ==> {
                let p = #[trigger] pairs_below(s, deleted, rows)[t];
                0 <= p.0 < rows && p.0 < p.1 < s.len() && collides(s, deleted, p.0, p.1)
            },
        forall|t: int, u: int|
            0 <= t < u < pairs_below(s, deleted, rows).len() ==> pair_before(
                #[trigger] pairs_below(s, deleted, rows)[t],
                #[trigger] pairs_below(s, deleted, rows)[u],
            ),
        forall|i: int, j: int|
            0 <= i < rows && i < j < s.len() && collides(s, deleted, i, j) ==> exists|t: int|
                0 <= t < pairs_below(s, deleted, rows).len() && pairs_below(s, deleted, rows)[t]
                    == (i, j),
    decreases rows,
{
    if rows > 0 {
        let n = s.len() as int;
        lemma_pairs_below(s, deleted, rows - 1);
        lemma_row_pairs(s, deleted, rows - 1, n);
        let before = pairs_below(s, deleted, rows - 1);
        let row = row_pairs(s, deleted, rows - 1, n);
        let all = pairs_below(s, deleted, rows);
        assert(all == before + row);
        assert forall|t: int| 0 <= t < all.len() implies {
            let p = #[trigger] all[t];
            0 <= p.0 < rows && p.0 < p.1 < s.len() && collides(s, deleted, p.0, p.1)
        } by {
            if t < before.len() {
                assert(all[t] == before[t]);
            } else {
                assert(all[t] == row[t - before.len()]);
            }
        }
        assert forall|t: int, u: int| 0 <= t < u < all.len() implies pair_before(
            #[trigger] all[t],
            #[trigger] all[u],
        ) by {
            if u < before.len() {
                assert(all[t] == before[t] && all[u] == before[u]);
            } else if t < before.len() {
                assert(all[t] == before[t] && all[u] == row[u - before.len()]);
            } else {
                assert(all[t] == row[t - before.len()] && all[u] == row[u - before.len()]);
            }
        }
        assert forall|i: int, j: int|
            0 <= i < rows && i < j < s.len() && collides(s, deleted, i, j) implies exists|t: int|
            0 <= t < all.len() && all[t] == (i, j) by {
            if i < rows - 1 {
                let t = choose|t: int| 0 <= t < before.len() && before[t] == (i, j);
                assert(all[t] == (i, j));
            } else {
                let t = choose|t: int| 0 <= t < row.len() && row[t] == (i, j);
                assert(all[before.len() + t] == (i, j));
            }
        }
    }
}

/// The collisions of a frame are exactly the pairs of distinct physical,
/// unmarked entities whose boxes intersect. No pair comes twice, neither the
/// same way round nor the other; an entity that is not physical is in no
/// pair.
pub proof fn lemma_collision_pairs(s: Seq<Entity>, deleted: Seq<bool>)
    ensures
        forall|t: int|
            0 <= t < collision_pairs(s, deleted).len() ==> {
                let p = #[trigger] collision_pairs(s, deleted)[t];
                &&& 0 <= p.0 < p.1 < s.len()
                &&& s[p.0].physical && s[p.1].physical
                &&& !deleted[p.0] && !deleted[p.1]
                &&& boxes_intersect(s[p.0].bounds(), s[p.1].bounds())
            },
        forall|i: int, j: int|
            0 <= i < j < s.len() && collides(s, deleted, i, j) ==> exists|t: int|
                0 <= t < collision_pairs(s, deleted).len() && collision_pairs(s, deleted)[t] == (
                    i,
                    j,
                ),
        forall|t: int, u: int|
            0 <= t < collision_pairs(s, deleted).len() && 0 <= u < collision_pairs(
                s,
                deleted,
            ).len() && t != u ==> {
                let p = #[trigger] collision_pairs(s, deleted)[t];
                let q = #[trigger] collision_pairs(s, deleted)[u];
                p != q && p != (q.1, q.0)
            },
{
    lemma_pairs_below(s, deleted, s.len() as int);
    let all = collision_pairs(s, deleted);
    assert forall|t: int, u: int| 0 <= t < all.len() && 0 <= u < all.len() && t != u implies {
        let p = #[trigger] all[t];
        let q = #[trigger] all[u];
        p != q && p != (q.1, q.0)
    } by {
        if t < u {
            assert(pair_before(all[t], all[u]));
        } else {
            assert(pair_before(all[u], all[t]));
        }
    }
}

/// A row is full where its entity collides with every entity after it.
pub proof fn lemma_row_pairs_full(s: Seq<Entity>, deleted: Seq<bool>, i: int, upto: int)
    requires
        i < upto,
        forall|j: int| i < j < upto ==> collides(s, deleted, i, j),
    ensures
        row_pairs(s, deleted, i, upto).len() == upto - i - 1,
    decreases upto - i,
{
    if upto > i + 1 {
        lemma_row_pairs_full(s, deleted, i, upto - 1);
    }
}

/// The count of the collisions in the rows below `rows`, where every two
/// entities collide.
pub proof fn lemma_all_collide_rows(s: Seq<Entity>, deleted: Seq<bool>, rows: int)
    requires
        0 <= rows <= s.len(),
        forall|i: int, j: int| 0 <= i < j < s.len() ==> collides(s, deleted, i, j),
    ensures
        2 * pairs_below(s, deleted, rows).len() == rows * (2 * s.len() - rows - 1),
    decreases rows,
{
    let n = s.len() as int;
    if rows > 0 {
        lemma_all_collide_rows(s, deleted, rows - 1);
        lemma_row_pairs_full(s, deleted, rows - 1, n);
        let before = pairs_below(s, deleted, rows - 1).len() as int;
        assert(pairs_below(s, deleted, rows).len() == before + (n - rows));
        assert(2 * before == (rows - 1) * (2 * n - (rows - 1) - 1));
        assert((rows - 1) * (2 * n - (rows - 1) - 1) + 2 * (n - rows) == rows * (2 * n - rows
            - 1)) by (nonlinear_arith);
    } else {
        assert(0 * (2 * n - 0 - 1) == 0) by (nonlinear_arith);
    }
}

/// Where every two of the `n` entities collide, the frame has `n * (n - 1) /
/// 2` collisions.
pub proof fn lemma_all_collide_count(s: Seq<Entity>, deleted: Seq<bool>)
    requires
        forall|i: int, j: int| 0 <= i < j < s.len() ==> collides(s, deleted, i, j),
    ensures
        2 * collision_pairs(s, deleted).len() == s.len() * (s.len() - 1),
{
    lemma_all_collide_rows(s, deleted, s.len() as int);
    let n = s.len() as int;
    assert(n * (2 * n - n - 1) == n * (n - 1)) by (nonlinear_arith);
}

/// An entity that is not physical, or is marked, has an empty row.
pub proof fn lemma_row_pairs_none(s: Seq<Entity>, deleted: Seq<bool>, i: int, upto: int)
    requires
        !s[i].physical || deleted[i],
    ensures
        row_pairs(s, deleted, i, upto) == Seq::<(int, int)>::empty(),
    decreases upto - i,
{
    if upto > i + 1 {
        lemma_row_pairs_none(s, deleted, i, upto - 1);
    }
}

impl Animation {
    /// The collisions among the entities that are not marked: the names of
    /// each pair of [`collision_pairs`], in its order.
    pub fn find_collisions(&self, deleted: &Vec<bool>) -> (pairs: Vec<(String, String)>)
        requires
            deleted@.len() == self.entities@.len(),
        ensures
            pairs@ == pair_names(self.entities@, collision_pairs(self.entities@, deleted@)),
    {
        let ghost s = self.entities@;
        let ghost d = deleted@;
        let n: usize = self.entities.len();
        let mut pairs: Vec<(String, String)> = Vec::new();
        let mut i: usize = 0;
        while i < n
            invariant
                s == self.entities@,
                d == deleted@,
                n == s.len(),
                d.len() == n,
                i <= n,
                named_pairs(s, pairs_below(s, d, i as int), pairs@),
            decreases n - i,
        {
            if self.entities[i].physical && !deleted[i] {
                let mut j: usize = i + 1;
                let ghost places = pairs_below(s, d, i as int);
                while j < n
                    invariant
                        s == self.entities@,
                        d == deleted@,
                        n == s.len(),
                        d.len() == n,
                        i < j <= n,
                        s[i as int].physical && !d[i as int],
                        places == pairs_below(s, d, i as int) + row_pairs(
                            s,
                            d,
                            i as int,
                            j as int,
                        ),
                        named_pairs(s, places, pairs@),
                    decreases n - j,
                {
                    if self.entities[j].physical && !deleted[j] && self.entities[i].intersects(
                        &self.entities[j],
                    ) {
                        pairs.push((self.entities[i].name.clone(), self.entities[j].name.clone()));
                        proof {
                            let grown = places.push((i as int, j as int));
                            assert(grown =~= pairs_below(s, d, i as int) + row_pairs(
                                s,
                                d,
                                i as int,
                                j + 1,
                            ));
                            places = grown;
                        }
                    }
                    j += 1;
                }
            } else {
                proof {
                    lemma_row_pairs_none(s, d, i as int, n as int);
                    assert(pairs_below(s, d, i + 1) =~= pairs_below(s, d, i as int));
                }
            }
            i += 1;
        }
        proof {
            assert(pairs@ =~= pair_names(s, collision_pairs(s, d)));
        }
        pairs
    }
}

} // verus!
