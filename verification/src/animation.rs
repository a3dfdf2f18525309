//! The scheduler: the entities of an animation and the canvas they move on.

use vstd::prelude::*;
use crossterm::style::Color;
use crate::entity::Entity;
use crate::error::AnimationError;

verus! {

/// `crossterm::style::Color`, a colour of the terminal. The library stores
/// one as the background and never looks inside it.
#[verifier::external_type_specification]
#[verifier::external_body]
pub struct ExColor(Color);

/// The state of an animation.
pub struct Animation {
    /// The entities, in the order in which they were added. No two have the
    /// same name.
    pub entities: Vec<Entity>,
    /// The number of physical entities.
    pub physical_count: usize,
    pub track_framerate: bool,
    pub framerate: u16,
    pub frames_this_second: u16,
    /// The canvas, in cells.
    pub width: i16,
    pub height: i16,
    /// Whether the size of the canvas is a guess.
    pub assumed_size: bool,
    pub bg: Option<Color>,
}

/// What one frame did besides moving entities.
pub struct FrameReport {
    /// The errors of single entities, in the order in which they came up.
    /// None of them stopped the frame.
    pub errors: Vec<AnimationError>,
    /// The entities that were removed in this frame, in the order in which
    /// they stood in the scheduler.
    pub removed: Vec<Entity>,
}

/// No two entities have the same name.
pub open spec fn names_distinct(s: Seq<Entity>) -> bool {
    forall|i: int, j: int| 0 <= i < j < s.len() ==> s[i].name@ != s[j].name@
}

/// Some entity is called `name`.
pub open spec fn has_name(s: Seq<Entity>, name: Seq<char>) -> bool {
    exists|i: int| 0 <= i < s.len() && s[i].name@ == name
}

/// The place of the entity called `name`, where there is one.
pub open spec fn name_index(s: Seq<Entity>, name: Seq<char>) -> int {
    choose|i: int| 0 <= i < s.len() && s[i].name@ == name
}

/// The number of physical entities.
pub open spec fn count_physical(s: Seq<Entity>) -> nat
    decreases s.len(),
{
    if s.len() == 0 {
        0
    } else {
        count_physical(s.drop_last()) + if s.last().physical {
            1nat
        } else {
            0nat
        }
    }
}

/// The entity `a` is `b` but for where it is and which frame it shows, and
/// if `b` showed a frame that it has a picture for, so does `a`.
pub open spec fn same_identity(a: Entity, b: Entity) -> bool {
    &&& a == (Entity { pos: a.pos, current_frame: a.current_frame, ..b })
    &&& b.frame_valid() ==> a.frame_valid()
}

/// The same entities in the same order, each changed at most in its place
/// and its frame, and none brought to a frame without a picture.
pub open spec fn evolved(before: Seq<Entity>, after: Seq<Entity>) -> bool {
    &&& before.len() == after.len()
    &&& forall|i: int| 0 <= i < before.len() ==> same_identity(#[trigger] after[i], before[i])
}

/// As many entities, with the same names in the same order, and the same
/// ones physical.
pub open spec fn alike(before: Seq<Entity>, after: Seq<Entity>) -> bool {
    &&& before.len() == after.len()
    &&& forall|i: int|
        0 <= i < before.len() ==> (#[trigger] after[i]).name == before[i].name && after[i].physical
            == before[i].physical
}

/// The terminal's answer as a signed number, as a conversion between
/// integers of 16 bits gives it: from 32768 on it is negative.
pub open spec fn as_signed(v: u16) -> i16 {
    if v < 0x8000 {
        v as i16
    } else {
        (v - 0x10000) as i16
    }
}

/// The canvas for what the terminal said of its size: columns and rows where
/// it answered, 80 by 24 and the mark that this is a guess where it did not.
pub open spec fn canvas_of(answer: Option<(u16, u16)>) -> (i16, i16, bool) {
    match answer {
        Some((columns, rows)) => (as_signed(columns), as_signed(rows), false),
        None => (80i16, 24i16, true),
    }
}

/// There are no more physical entities than entities.
pub proof fn lemma_count_physical_bound(s: Seq<Entity>)
    ensures
        count_physical(s) <= s.len(),
    decreases s.len(),
{
    if s.len() > 0 {
        lemma_count_physical_bound(s.drop_last());
    }
}

/// Adding an entity adds it to the count if it is physical.
pub proof fn lemma_count_physical_push(s: Seq<Entity>, e: Entity)
    ensures
        count_physical(s.push(e)) == count_physical(s) + if e.physical {
            1nat
        } else {
            0nat
        },
{
    assert(s.push(e).drop_last() =~= s);
}

/// Replacing an entity takes the old one out of the count and the new one in.
pub proof fn lemma_count_physical_update(s: Seq<Entity>, i: int, e: Entity)
    requires
        0 <= i < s.len(),
    ensures
        count_physical(s.update(i, e)) + (if s[i].physical {
            1nat
        } else {
            0nat
        }) == count_physical(s) + if e.physical {
            1nat
        } else {
            0nat
        },
    decreases s.len(),
{
    let t = s.update(i, e);
    if i == s.len() - 1 {
        assert(t.drop_last() =~= s.drop_last());
    } else {
        lemma_count_physical_update(s.drop_last(), i, e);
        assert(t.drop_last() =~= s.drop_last().update(i, e));
    }
}

/// The count depends on nothing but which entities are physical.
pub proof fn lemma_count_physical_flags(s: Seq<Entity>, t: Seq<Entity>)
    requires
        s.len() == t.len(),
        forall|i: int| 0 <= i < s.len() ==> s[i].physical == t[i].physical,
    ensures
        count_physical(s) == count_physical(t),
    decreases s.len(),
{
    if s.len() > 0 {
        lemma_count_physical_flags(s.drop_last(), t.drop_last());
    }
}

/// Entities that only moved are alike.
pub proof fn lemma_evolved_alike(before: Seq<Entity>, after: Seq<Entity>)
    requires
        evolved(before, after),
    ensures
        alike(before, after),
{
    assert forall|i: int| 0 <= i < before.len() implies (#[trigger] after[i]).name
        == before[i].name && after[i].physical == before[i].physical by {
        assert(same_identity(after[i], before[i]));
    }
}

/// Entities that only moved are as many, as physical and as distinct as
/// before, and answer to the same names at the same places.
pub proof fn lemma_evolved_keeps(before: Seq<Entity>, after: Seq<Entity>)
    requires
        evolved(before, after),
    ensures
        count_physical(after) == count_physical(before),
        names_distinct(before) == names_distinct(after),
        forall|name: Seq<char>| has_name(before, name) == has_name(after, name),
        forall|name: Seq<char>|
            has_name(before, name) && names_distinct(before) ==> name_index(after, name)
                == name_index(before, name),
{
    lemma_evolved_alike(before, after);
    lemma_alike_keeps(before, after);
}

/// Entities that are alike are as many, as physical and as distinct, and
/// answer to the same names at the same places.
pub proof fn lemma_alike_keeps(before: Seq<Entity>, after: Seq<Entity>)
    requires
        alike(before, after),
    ensures
        count_physical(after) == count_physical(before),
        names_distinct(before) == names_distinct(after),
        forall|name: Seq<char>| has_name(before, name) == has_name(after, name),
        forall|name: Seq<char>|
            has_name(before, name) && names_distinct(before) ==> name_index(after, name)
                == name_index(before, name),
{
    lemma_count_physical_flags(before, after);
    assert forall|name: Seq<char>| has_name(before, name) == has_name(after, name) by {
        if has_name(before, name) {
            let i = name_index(before, name);
            assert(after[i].name@ == name);
        }
        if has_name(after, name) {
            let i = name_index(after, name);
            assert(before[i].name@ == name);
        }
    }
    if names_distinct(before) {
        assert forall|i: int, j: int| 0 <= i < j < after.len() implies after[i].name@
            != after[j].name@ by {
            assert(before[i].name@ != before[j].name@);
        }
    }
    if names_distinct(after) {
        assert forall|i: int, j: int| 0 <= i < j < before.len() implies before[i].name@
            != before[j].name@ by {
            assert(after[i].name@ != after[j].name@);
        }
    }
    assert forall|name: Seq<char>|
        has_name(before, name) && names_distinct(before) implies name_index(after, name)
        == name_index(before, name) by {
        let i = name_index(before, name);
        let j = name_index(after, name);
        assert(after[i].name@ == name);
        assert(before[j].name@ == name);
        if i < j {
            assert(before[i].name@ != before[j].name@);
        }
        if j < i {
            assert(before[j].name@ != before[i].name@);
        }
    }
}

/// Entities that only moved answer to the same names.
pub proof fn lemma_evolved_has_name(before: Seq<Entity>, after: Seq<Entity>, name: Seq<char>)
    requires
        evolved(before, after),
    ensures
        has_name(before, name) == has_name(after, name),
{
    if has_name(before, name) {
        let i = choose|i: int| 0 <= i < before.len() && before[i].name@ == name;
        assert(same_identity(after[i], before[i]));
    }
    if has_name(after, name) {
        let i = choose|i: int| 0 <= i < after.len() && after[i].name@ == name;
        assert(same_identity(after[i], before[i]));
    }
}

/// Changes of place and frame add up.
pub proof fn lemma_evolved_trans(a: Seq<Entity>, b: Seq<Entity>, c: Seq<Entity>)
    requires
        evolved(a, b),
        evolved(b, c),
    ensures
        evolved(a, c),
{
    assert forall|i: int| 0 <= i < a.len() implies same_identity(#[trigger] c[i], a[i]) by {
        assert(same_identity(c[i], b[i]));
        assert(same_identity(b[i], a[i]));
    }
}

/// Among distinct names, the entity called `name` stands where it is found.
pub proof fn lemma_name_index_unique(s: Seq<Entity>, i: int)
    requires
        names_distinct(s),
        0 <= i < s.len(),
    ensures
        has_name(s, s[i].name@),
        name_index(s, s[i].name@) == i,
{
    let j = name_index(s, s[i].name@);
    if i < j {
        assert(s[i].name@ != s[j].name@);
    }
    if j < i {
        assert(s[j].name@ != s[i].name@);
    }
}

impl Animation {
    /// The scheduler is in order: the names are distinct and the count of
    /// physical entities is right.
    pub open spec fn wf(&self) -> bool {
        &&& names_distinct(self.entities@)
        &&& self.physical_count == count_physical(self.entities@)
    }

    /// `e` is one of the entities of the scheduler.
    pub open spec fn holds(&self, e: Entity) -> bool {
        exists|i: int| 0 <= i < self.entities@.len() && self.entities@[i] == e
    }

    /// The two schedulers have the same canvas and the same settings; only
    /// their entities may differ.
    pub open spec fn same_settings(&self, other: &Animation) -> bool {
        *self == (Animation {
            entities: self.entities,
            physical_count: self.physical_count,
            ..*other
        })
    }

    /// The canvas for `answer`, which is what the terminal said of its size:
    /// width, height and whether they are a guess. See [`canvas_of`].
    pub fn get_term_size(answer: Option<(u16, u16)>) -> (r: (i16, i16, bool))
        ensures
            r == canvas_of(answer),
    {
        match answer {
            Some((columns, rows)) => (Self::signed(columns), Self::signed(rows), false),
            None => (80, 24, true),
        }
    }

    /// Computes [`as_signed`].
    fn signed(v: u16) -> (r: i16)
        ensures
            r == as_signed(v),
    {
        if v < 0x8000 {
            v as i16
        } else {
            (v as i32 - 0x10000) as i16
        }
    }

    /// An animation without entities, on the canvas for `answer`, which is
    /// what the terminal said of its size (`None` where it could not be
    /// asked).
    pub fn new(answer: Option<(u16, u16)>) -> (r: Self)
        ensures
            r.wf(),
            r.entities@.len() == 0,
            r.physical_count == 0,
            !r.track_framerate,
            r.framerate == 0,
            r.frames_this_second == 0,
            (r.width, r.height, r.assumed_size) == canvas_of(answer),
            r.bg == None::<Color>,
    {
        let (width, height, assumed_size) = Self::get_term_size(answer);
        Animation {
            entities: Vec::new(),
            physical_count: 0,
            track_framerate: false,
            framerate: 0,
            frames_this_second: 0,
            width,
            height,
            assumed_size,
            bg: None,
        }
    }

    /// Switches the tracking of the frame rate on or off.
    pub fn set_track_framerate(&mut self, track_framerate: bool) -> (r: &mut Self)
        ensures
            *r == (Animation { track_framerate, ..*old(self) }),
            *final(self) == *final(r),
    {
        self.track_framerate = track_framerate;
        self
    }

    /// Sets the background colour.
    pub fn background(&mut self, bg: Color) -> (r: &mut Self)
        ensures
            *r == (Animation { bg: Some(bg), ..*old(self) }),
            *final(self) == *final(r),
    {
        self.bg = Some(bg);
        self
    }

    /// The frame rate that was last measured.
    pub fn framerate(&self) -> (r: u16)
        ensures
            r == self.framerate,
    {
        self.framerate
    }

    /// Whether the scheduler is in order: see [`Animation::wf`]. The methods
    /// of the scheduler keep it in order; this is for a caller that has
    /// changed the entities by hand.
    pub fn well_formed(&self) -> (r: bool)
        ensures
            r == self.wf(),
    {
        let n: usize = self.entities.len();
        let mut count: usize = 0;
        let mut j: usize = 0;
        while j < n
            invariant
                n == self.entities@.len(),
                j <= n,
                count <= j,
                count == count_physical(self.entities@.take(j as int)),
                forall|a: int, b: int|
                    0 <= a < b < j ==> self.entities@[a].name@ != self.entities@[b].name@,
            decreases n - j,
        {
            let mut i: usize = 0;
            while i < j
                invariant
                    n == self.entities@.len(),
                    i <= j < n,
                    forall|k: int|
                        0 <= k < i ==> self.entities@[k].name@ != self.entities@[j as int].name@,
                decreases j - i,
            {
                if self.entities[i].name == self.entities[j].name {
                    return false;
                }
                i += 1;
            }
            proof {
                assert(self.entities@.take(j + 1).drop_last() =~= self.entities@.take(j as int));
            }
            if self.entities[j].physical {
                count += 1;
            }
            j += 1;
        }
        proof {
            assert(self.entities@.take(n as int) =~= self.entities@);
        }
        count == self.physical_count
    }

    /// Where the entity called `name` stands, if there is one.
    pub fn index_of(&self, name: &String) -> (r: Option<usize>)
        ensures
            r is Some <==> has_name(self.entities@, name@),
            r matches Some(i) ==> i < self.entities@.len() && self.entities@[i as int].name@
                == name@ && forall|k: int| 0 <= k < i ==> self.entities@[k].name@ != name@,
    {
        let mut i: usize = 0;
        while i < self.entities.len()
            invariant
                i <= self.entities@.len(),
                forall|k: int| 0 <= k < i ==> self.entities@[k].name@ != name@,
            decreases self.entities@.len() - i,
        {
            if self.entities[i].name == *name {
                return Some(i);
            }
            i += 1;
        }
        None
    }

    /// Adds `entity`. An entity of the same name is replaced by it and keeps
    /// its place; otherwise the new entity comes last. The count of physical
    /// entities follows.
    pub fn add_entity(&mut self, entity: Entity)
        requires
            old(self).wf(),
        ensures
            final(self).wf(),
            final(self).same_settings(old(self)),
            has_name(old(self).entities@, entity.name@) ==> final(self).entities@
                == old(self).entities@.update(
                name_index(old(self).entities@, entity.name@),
                entity,
            ),
            !has_name(old(self).entities@, entity.name@) ==> final(self).entities@
                == old(self).entities@.push(entity),
    {
        let ghost before = self.entities@;
        match self.index_of(&entity.name) {
            Some(i) => {
                let was_physical = self.entities[i].physical;
                let is_physical = entity.physical;
                proof {
                    lemma_name_index_unique(before, i as int);
                    lemma_count_physical_update(before, i as int, entity);
                    lemma_count_physical_bound(before.update(i as int, entity));
                    assert forall|a: int, b: int|
                        0 <= a < b < before.len() implies before.update(i as int, entity)[a].name@
                        != before.update(i as int, entity)[b].name@ by {
                        assert(before[a].name@ != before[b].name@);
                    }
                }
                self.entities.set(i, entity);
                assert(count_physical(self.entities@) <= self.entities.len());
                if was_physical && !is_physical {
                    self.physical_count = self.physical_count - 1;
                } else if !was_physical && is_physical {
                    self.physical_count = self.physical_count + 1;
                }
            },
            None => {
                let is_physical = entity.physical;
                proof {
                    lemma_count_physical_push(before, entity);
                    lemma_count_physical_bound(before.push(entity));
                    assert forall|a: int, b: int|
                        0 <= a < b < before.len() + 1 implies before.push(entity)[a].name@
                        != before.push(entity)[b].name@ by {
                        if b < before.len() {
                            assert(before[a].name@ != before[b].name@);
                        }
                    }
                }
                self.entities.push(entity);
                assert(count_physical(self.entities@) <= self.entities.len());
                if is_physical {
                    self.physical_count = self.physical_count + 1;
                }
            },
        }
    }
}

} // verus!
