//! Who dies in a frame: the countdown, the edge of the canvas, and the bond
//! of death between entities.

use vstd::prelude::*;
use crate::animation::{
    alike, has_name, lemma_alike_keeps, lemma_name_index_unique, name_index, names_distinct,
    Animation,
};
use crate::entity::Entity;

verus! {

/// The entity one frame older: a countdown is one less. (At the least number
/// it stays; such an entity is long dead.)
pub open spec fn ticked(e: Entity) -> Entity {
    Entity {
        die_frame: match e.die_frame {
            Some(n) => Some(
                if n > i32::MIN {
                    (n - 1) as i32
                } else {
                    n
                },
            ),
            None => None,
        },
        ..e
    }
}

/// All entities one frame older.
pub open spec fn ticked_all(s: Seq<Entity>) -> Seq<Entity> {
    Seq::new(s.len(), |i: int| ticked(s[i]))
}

/// The countdown of the entity has run out.
pub open spec fn countdown_over(e: Entity) -> bool {
    e.die_frame matches Some(n) && n <= 0
}

/// The entity dies off screen and is off the canvas of `width` by `height`
/// cells: at or beyond its right or lower edge, or further left of it than
/// the entity is wide, or further above it than the entity is high.
pub open spec fn offscreen(e: Entity, width: int, height: int) -> bool {
    e.die_offscreen && (e.pos.x >= width || e.pos.y >= height || e.pos.x < -e.width || e.pos.y
        < -e.height)
}

/// The place of the entity that entity `i` is bound to in death, where it
/// names one and that one is there.
pub open spec fn reference_of(s: Seq<Entity>, i: int) -> Option<int> {
    match s[i].die_entity {
        Some(name) => if has_name(s, name@) {
            Some(name_index(s, name@))
        } else {
            None
        },
        None => None,
    }
}

/// Entity `i` dies whatever becomes of the others: its countdown has run
/// out, it is off screen, or the entity it is bound to is not there.
pub open spec fn dies_alone(s: Seq<Entity>, i: int, width: int, height: int) -> bool {
    ||| countdown_over(s[i])
    ||| offscreen(s[i], width, height)
    ||| (s[i].die_entity is Some && reference_of(s, i) is None)
}

/// Who dies alone, entity by entity.
pub open spec fn alone_marks(s: Seq<Entity>, width: int, height: int) -> Seq<bool> {
    Seq::new(s.len(), |i: int| dies_alone(s, i, width, height))
}

/// Entity `i` is marked, or a chain of at most `hops` bonds leads from it to
/// a marked entity: it is bound to an entity that is bound to an entity and
/// so on, and the last one is marked.
pub open spec fn marked_within(s: Seq<Entity>, marks: Seq<bool>, i: int, hops: nat) -> bool
    decreases hops,
{
    ||| marks[i]
    ||| (hops > 0 && (reference_of(s, i) matches Some(j) && marked_within(
        s,
        marks,
        j,
        (hops - 1) as nat,
    )))
}

/// The mark of a marked entity reaches entity `i` along the bonds.
pub open spec fn spreads_to(s: Seq<Entity>, marks: Seq<bool>, i: int) -> bool {
    exists|hops: nat| marked_within(s, marks, i, hops)
}

/// The marks spread along the bonds of death: an entity is marked if it was
/// marked, or is bound to an entity that is marked now. In which order the
/// entities are looked at does not matter; entities bound to each other in a
/// circle, none of which was marked, stay unmarked.
pub open spec fn spread_marks(s: Seq<Entity>, marks: Seq<bool>) -> Seq<bool> {
    Seq::new(s.len(), |i: int| spreads_to(s, marks, i))
}

/// Entity `i` dies in this frame: it dies alone, or the entity it is bound
/// to dies in this frame.
pub open spec fn dies(s: Seq<Entity>, i: int, width: int, height: int) -> bool {
    spreads_to(s, alone_marks(s, width, height), i)
}

/// The marks of death of all entities.
pub open spec fn death_marks(s: Seq<Entity>, width: int, height: int) -> Seq<bool> {
    spread_marks(s, alone_marks(s, width, height))
}

/// No unmarked entity is bound to a marked one.
pub open spec fn closed_under_reference(s: Seq<Entity>, marks: Seq<bool>) -> bool {
    forall|k: int|
        0 <= k < s.len() && !marks[k] ==> !(reference_of(s, k) matches Some(j) && marks[j])
}

/// `bonds` holds for each entity the place of the entity it is bound to.
pub open spec fn bonds_match(s: Seq<Entity>, bonds: Seq<Option<usize>>) -> bool {
    &&& bonds.len() == s.len()
    &&& forall|k: int|
        0 <= k < s.len() ==> match #[trigger] bonds[k] {
            Some(j) => reference_of(s, k) == Some(j as int) && j < s.len(),
            None => reference_of(s, k) is None,
        }
}

/// The number of entities that are not marked.
pub open spec fn count_false(marks: Seq<bool>) -> nat
    decreases marks.len(),
{
    if marks.len() == 0 {
        0
    } else {
        count_false(marks.drop_last()) + if marks.last() {
            0nat
        } else {
            1nat
        }
    }
}

/// Marking one more entity leaves one less unmarked.
pub proof fn lemma_count_false_update(marks: Seq<bool>, k: int)
    requires
        0 <= k < marks.len(),
        !marks[k],
    ensures
        count_false(marks.update(k, true)) + 1 == count_false(marks),
    decreases marks.len(),
{
    let after = marks.update(k, true);
    if k == marks.len() - 1 {
        assert(after.drop_last() =~= marks.drop_last());
    } else {
        lemma_count_false_update(marks.drop_last(), k);
        assert(after.drop_last() =~= marks.drop_last().update(k, true));
    }
}

/// Marks that hold the marks of `start` and are closed under the bond of
/// death hold every entity that a mark of `start` reaches.
pub proof fn lemma_closed_marks_complete(
    s: Seq<Entity>,
    start: Seq<bool>,
    marks: Seq<bool>,
    i: int,
    hops: nat,
)
    requires
        marks.len() == s.len(),
        start.len() == s.len(),
        0 <= i < s.len(),
        forall|k: int| 0 <= k < s.len() && start[k] ==> marks[k],
        closed_under_reference(s, marks),
        marked_within(s, start, i, hops),
    ensures
        marks[i],
    decreases hops,
{
    if !start[i] {
        let j = reference_of(s, i).unwrap();
        lemma_closed_marks_complete(s, start, marks, j, (hops - 1) as nat);
    }
}

/// The spread marks hold the marks they come from, and are closed under the
/// bond of death: who is bound to a marked entity is marked.
pub proof fn lemma_spread_closed(s: Seq<Entity>, marks: Seq<bool>)
    requires
        marks.len() == s.len(),
    ensures
        forall|k: int| 0 <= k < s.len() && marks[k] ==> spread_marks(s, marks)[k],
        closed_under_reference(s, spread_marks(s, marks)),
{
    let spread = spread_marks(s, marks);
    assert forall|k: int| 0 <= k < s.len() && marks[k] implies spread[k] by {
        assert(marked_within(s, marks, k, 0));
    }
    assert forall|k: int| 0 <= k < s.len() && !spread[k] implies !(reference_of(s, k) matches Some(
        j,
    ) && spread[j]) by {
        if reference_of(s, k) is Some {
            let j = reference_of(s, k).unwrap();
            if spread[j] {
                let hops = choose|hops: nat| marked_within(s, marks, j, hops);
                assert(marked_within(s, marks, k, hops + 1));
            }
        }
    }
}

/// Marks do not reach an unmarked entity that is bound to nobody.
pub proof fn lemma_unbound_unmarked(s: Seq<Entity>, marks: Seq<bool>, i: int)
    requires
        marks.len() == s.len(),
        0 <= i < s.len(),
        !marks[i],
        s[i].die_entity is None,
    ensures
        !spread_marks(s, marks)[i],
{
    assert forall|hops: nat| !marked_within(s, marks, i, hops) by {
    }
}

/// An entity whose countdown stands at 1 or less at the start of a frame
/// dies in that frame.
pub proof fn lemma_countdown_dies(s: Seq<Entity>, i: int, width: int, height: int)
    requires
        0 <= i < s.len(),
        s[i].die_frame matches Some(n) && n <= 1,
    ensures
        dies(ticked_all(s), i, width, height),
{
    let aged = ticked_all(s);
    assert(marked_within(aged, alone_marks(aged, width, height), i, 0));
}

/// An entity that is bound to another dies in the frame in which the other
/// dies or is not there.
pub proof fn lemma_bound_entity_dies(s: Seq<Entity>, i: int, width: int, height: int)
    requires
        0 <= i < s.len(),
        s[i].die_entity matches Some(name) && (!has_name(s, name@) || dies(
            s,
            name_index(s, name@),
            width,
            height,
        )),
    ensures
        dies(s, i, width, height),
{
    let name = s[i].die_entity.unwrap();
    let alone = alone_marks(s, width, height);
    if has_name(s, name@) {
        let j = name_index(s, name@);
        let hops = choose|hops: nat| marked_within(s, alone, j, hops);
        assert(marked_within(s, alone, i, hops + 1));
    } else {
        assert(marked_within(s, alone, i, 0));
    }
}

/// Entities that are alike and bound alike are bound to the same places.
pub proof fn lemma_reference_alike(before: Seq<Entity>, after: Seq<Entity>, i: int)
    requires
        alike(before, after),
        names_distinct(before),
        0 <= i < before.len(),
        after[i].die_entity == before[i].die_entity,
    ensures
        reference_of(after, i) == reference_of(before, i),
{
    lemma_alike_keeps(before, after);
}

/// Growing older changes nothing but the countdown: the entities are alike.
pub proof fn lemma_ticked_all(s: Seq<Entity>)
    ensures
        alike(s, ticked_all(s)),
{
}

impl Animation {
    /// Makes every entity one frame older: each countdown is reduced by one.
    pub fn tick(&mut self)
        requires
            old(self).wf(),
        ensures
            final(self).wf(),
            final(self).same_settings(old(self)),
            final(self).entities@ == ticked_all(old(self).entities@),
    {
        let mut i: usize = 0;
        while i < self.entities.len()
            invariant
                i <= self.entities@.len(),
                self.entities@.len() == old(self).entities@.len(),
                self.same_settings(old(self)),
                self.physical_count == old(self).physical_count,
                forall|k: int| 0 <= k < i ==> self.entities@[k] == ticked(old(self).entities@[k]),
                forall|k: int|
                    i <= k < self.entities@.len() ==> self.entities@[k] == old(self).entities@[k],
            decreases self.entities@.len() - i,
        {
            if let Some(n) = self.entities[i].die_frame {
                if n > i32::MIN {
                    self.entities[i].die_frame = Some(n - 1);
                }
            }
            i += 1;
        }
        proof {
            assert(self.entities@ =~= ticked_all(old(self).entities@));
            lemma_ticked_all(old(self).entities@);
            lemma_alike_keeps(old(self).entities@, self.entities@);
        }
    }

    /// For each entity the place of the entity it is bound to in death,
    /// where it names one and that one is there.
    pub fn bonds(&self) -> (bonds: Vec<Option<usize>>)
        requires
            self.wf(),
        ensures
            bonds_match(self.entities@, bonds@),
    {
        let ghost s = self.entities@;
        let n: usize = self.entities.len();
        let mut bonds: Vec<Option<usize>> = Vec::new();
        let mut i: usize = 0;
        while i < n
            invariant
                self.wf(),
                s == self.entities@,
                n == s.len(),
                i <= n,
                bonds@.len() == i,
                forall|k: int|
                    0 <= k < i ==> match #[trigger] bonds@[k] {
                        Some(j) => reference_of(s, k) == Some(j as int) && j < n,
                        None => reference_of(s, k) is None,
                    },
            decreases n - i,
        {
            let bond: Option<usize> = match &self.entities[i].die_entity {
                Some(name) => self.index_of(name),
                None => None,
            };
            proof {
                if bond is Some {
                    lemma_name_index_unique(s, bond.unwrap() as int);
                }
            }
            bonds.push(bond);
            i += 1;
        }
        bonds
    }

    /// Spreads the marks along the bonds that `bonds` holds: see
    /// [`spread_marks`].
    pub fn spread_along(&self, bonds: &Vec<Option<usize>>, marks: &mut Vec<bool>)
        requires
            bonds_match(self.entities@, bonds@),
            old(marks)@.len() == self.entities@.len(),
        ensures
            final(marks)@ == spread_marks(self.entities@, old(marks)@),
    {
        let ghost s = self.entities@;
        let ghost start = marks@;
        let n: usize = self.entities.len();
        proof {
            assert forall|k: int| 0 <= k < n && marks@[k] implies spreads_to(s, start, k) by {
                assert(marked_within(s, start, k, 0));
            }
        }
        let mut changed: bool = true;
        while changed
            invariant
                n == s.len(),
                start.len() == n,
                marks@.len() == n,
                bonds_match(s, bonds@),
                forall|k: int| 0 <= k < n && start[k] ==> marks@[k],
                forall|k: int| 0 <= k < n && marks@[k] ==> spreads_to(s, start, k),
                !changed ==> closed_under_reference(s, marks@),
            decreases
                    count_false(marks@) + if changed {
                        1nat
                    } else {
                        0nat
                    },
        {
            changed = false;
            let ghost before = marks@;
            let mut k: usize = 0;
            while k < n
                invariant
                    n == s.len(),
                    k <= n,
                    start.len() == n,
                    marks@.len() == n,
                    before.len() == n,
                    bonds_match(s, bonds@),
                    forall|m: int| 0 <= m < n && start[m] ==> marks@[m],
                    forall|m: int| 0 <= m < n && marks@[m] ==> spreads_to(s, start, m),
                    count_false(marks@) <= count_false(before),
                    changed ==> count_false(marks@) < count_false(before),
                    !changed ==> marks@ == before,
                    !changed ==> forall|m: int|
                        0 <= m < k && !marks@[m] ==> !(reference_of(s, m) matches Some(j)
                            && marks@[j]),
                decreases n - k,
            {
                if !marks[k] {
                    if let Some(j) = bonds[k] {
                        if marks[j] {
                            proof {
                                assert(spreads_to(s, start, j as int));
                                let hops = choose|hops: nat|
                                    marked_within(s, start, j as int, hops);
                                assert(marked_within(s, start, k as int, hops + 1));
                                lemma_count_false_update(marks@, k as int);
                            }
                            marks.set(k, true);
                            changed = true;
                        }
                    }
                }
                k += 1;
            }
        }
        proof {
            assert forall|i: int| 0 <= i < n implies marks@[i] == spreads_to(s, start, i) by {
                if spreads_to(s, start, i) {
                    let hops = choose|hops: nat| marked_within(s, start, i, hops);
                    lemma_closed_marks_complete(s, start, marks@, i, hops);
                }
            }
            assert(marks@ =~= spread_marks(s, start));
        }
    }

    /// Spreads the marks along the bonds of death: whoever is bound to a
    /// marked entity is marked too. See [`spread_marks`].
    pub fn spread(&self, marks: &mut Vec<bool>)
        requires
            self.wf(),
            old(marks)@.len() == self.entities@.len(),
        ensures
            final(marks)@ == spread_marks(self.entities@, old(marks)@),
    {
        let bonds = self.bonds();
        self.spread_along(&bonds, marks);
    }

    /// Who dies in this frame, entity by entity: see [`dies`].
    pub fn doomed(&self) -> (marks: Vec<bool>)
        requires
            self.wf(),
        ensures
            marks@ == death_marks(self.entities@, self.width as int, self.height as int),
    {
        let ghost s = self.entities@;
        let ghost w = self.width as int;
        let ghost h = self.height as int;
        let n: usize = self.entities.len();
        let bonds = self.bonds();
        let mut marks: Vec<bool> = Vec::new();
        let mut i: usize = 0;
        while i < n
            invariant
                s == self.entities@,
                w == self.width as int,
                h == self.height as int,
                n == s.len(),
                i <= n,
                bonds_match(s, bonds@),
                marks@.len() == i,
                forall|k: int| 0 <= k < i ==> marks@[k] == dies_alone(s, k, w, h),
            decreases n - i,
        {
            let e = &self.entities[i];
            let countdown: bool = match e.die_frame {
                Some(left) => left <= 0,
                None => false,
            };
            let off: bool = e.die_offscreen && (e.pos.x >= self.width || e.pos.y >= self.height
                || (e.pos.x as i32) < -(e.width as i32) || (e.pos.y as i32) < -(e.height as i32));
            let orphan: bool = e.die_entity.is_some() && bonds[i].is_none();
            marks.push(countdown || off || orphan);
            i += 1;
        }
        proof {
            assert(marks@ =~= alone_marks(s, w, h));
        }
        self.spread_along(&bonds, &mut marks);
        marks
    }
}

} // verus!
