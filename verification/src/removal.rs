//! The third stage of a frame: the marked entities leave the scheduler.

use vstd::prelude::*;
use crate::animation::{count_physical, has_name, name_index, names_distinct, Animation};
use crate::entity::Entity;
use crate::hooks::Hooks;

verus! {

/// The entities that are not marked, in their order.
pub open spec fn kept(s: Seq<Entity>, deleted: Seq<bool>) -> Seq<Entity>
    decreases s.len(),
{
    if s.len() == 0 {
        Seq::empty()
    } else {
        let before = kept(s.drop_last(), deleted.drop_last());
        if deleted.last() {
            before
        } else {
            before.push(s.last())
        }
    }
}

/// The marks turned round.
pub open spec fn negated(marks: Seq<bool>) -> Seq<bool> {
    Seq::new(marks.len(), |i: int| !marks[i])
}

/// The entities that are marked, in their order.
pub open spec fn taken(s: Seq<Entity>, deleted: Seq<bool>) -> Seq<Entity> {
    kept(s, negated(deleted))
}

/// Every kept entity is one of the unmarked entities.
pub proof fn lemma_kept_sources(s: Seq<Entity>, deleted: Seq<bool>)
    requires
        s.len() == deleted.len(),
    ensures
        kept(s, deleted).len() <= s.len(),
        forall|k: int|
            0 <= k < kept(s, deleted).len() ==> exists|i: int|
                0 <= i < s.len() && !deleted[i] && s[i] == #[trigger] kept(s, deleted)[k],
    decreases s.len(),
{
    if s.len() > 0 {
        let s0 = s.drop_last();
        let d0 = deleted.drop_last();
        let last = s.len() - 1;
        lemma_kept_sources(s0, d0);
        let k0 = kept(s0, d0);
        let k1 = kept(s, deleted);
        assert forall|k: int| 0 <= k < k1.len() implies exists|i: int|
            0 <= i < s.len() && !deleted[i] && s[i] == #[trigger] k1[k] by {
            if k < k0.len() {
                let i = choose|i: int| 0 <= i < s0.len() && !d0[i] && s0[i] == k0[k];
                assert(s[i] == k1[k] && !deleted[i]);
            } else {
                assert(s[last] == k1[k] && !deleted[last]);
            }
        }
    }
}

/// Every unmarked entity is kept.
pub proof fn lemma_kept_holds(s: Seq<Entity>, deleted: Seq<bool>, i: int)
    requires
        s.len() == deleted.len(),
        0 <= i < s.len(),
        !deleted[i],
    ensures
        exists|k: int| 0 <= k < kept(s, deleted).len() && kept(s, deleted)[k] == s[i],
    decreases s.len(),
{
    let s0 = s.drop_last();
    let d0 = deleted.drop_last();
    let k1 = kept(s, deleted);
    if i < s.len() - 1 {
        lemma_kept_holds(s0, d0, i);
        let k = choose|k: int| 0 <= k < kept(s0, d0).len() && kept(s0, d0)[k] == s0[i];
        assert(k1[k] == s[i]);
    } else {
        assert(k1[k1.len() - 1] == s[i]);
    }
}

/// Distinct names stay distinct among the kept.
pub proof fn lemma_kept_distinct(s: Seq<Entity>, deleted: Seq<bool>)
    requires
        s.len() == deleted.len(),
        names_distinct(s),
    ensures
        names_distinct(kept(s, deleted)),
    decreases s.len(),
{
    if s.len() > 0 {
        let s0 = s.drop_last();
        let d0 = deleted.drop_last();
        let last = s.len() - 1;
        assert(names_distinct(s0)) by {
            assert forall|a: int, b: int| 0 <= a < b < s0.len() implies s0[a].name@
                != s0[b].name@ by {
                assert(s[a].name@ != s[b].name@);
            }
        }
        lemma_kept_distinct(s0, d0);
        lemma_kept_sources(s0, d0);
        let k0 = kept(s0, d0);
        let k1 = kept(s, deleted);
        assert forall|a: int, b: int| 0 <= a < b < k1.len() implies k1[a].name@
            != k1[b].name@ by {
            if b < k0.len() {
                assert(k0[a].name@ != k0[b].name@);
            } else {
                let i = choose|i: int| 0 <= i < s0.len() && !d0[i] && s0[i] == k0[a];
                assert(s[i].name@ != s[last].name@);
            }
        }
    }
}

/// Among distinct names, a marked entity's name is gone from what is kept.
pub proof fn lemma_taken_names_gone(s: Seq<Entity>, deleted: Seq<bool>, i: int)
    requires
        s.len() == deleted.len(),
        names_distinct(s),
        0 <= i < s.len(),
        deleted[i],
    ensures
        !has_name(kept(s, deleted), s[i].name@),
{
    lemma_kept_sources(s, deleted);
    let rest = kept(s, deleted);
    if has_name(rest, s[i].name@) {
        let k = name_index(rest, s[i].name@);
        let j = choose|j: int| 0 <= j < s.len() && !deleted[j] && s[j] == rest[k];
        if i < j {
            assert(s[i].name@ != s[j].name@);
        } else {
            assert(s[j].name@ != s[i].name@);
        }
    }
}

impl Animation {
    /// The number of physical entities, counted.
    pub fn recount(&self) -> (r: usize)
        ensures
            r == count_physical(self.entities@),
    {
        let mut count: usize = 0;
        let mut i: usize = 0;
        while i < self.entities.len()
            invariant
                i <= self.entities@.len(),
                count <= i,
                count == count_physical(self.entities@.take(i as int)),
            decreases self.entities@.len() - i,
        {
            proof {
                assert(self.entities@.take(i + 1).drop_last() =~= self.entities@.take(i as int));
            }
            if self.entities[i].physical {
                count += 1;
            }
            i += 1;
        }
        proof {
            assert(self.entities@.take(self.entities@.len() as int) =~= self.entities@);
        }
        count
    }

    /// Takes the marked entities out of the scheduler and returns them; the
    /// others keep their order. See [`kept`] and [`taken`].
    pub fn take_deleted(&mut self, deleted: &Vec<bool>) -> (removed: Vec<Entity>)
        requires
            old(self).wf(),
            deleted@.len() == old(self).entities@.len(),
        ensures
            final(self).wf(),
            final(self).same_settings(old(self)),
            final(self).entities@ == kept(old(self).entities@, deleted@),
            removed@ == taken(old(self).entities@, deleted@),
    {
        let ghost s = self.entities@;
        let n: usize = self.entities.len();
        let mut all: Vec<Entity> = Vec::new();
        std::mem::swap(&mut all, &mut self.entities);
        let mut stack: Vec<Entity> = Vec::new();
        while all.len() > 0
            invariant
                all@.len() + stack@.len() == n,
                n == s.len(),
                all@ == s.take(all@.len() as int),
                forall|k: int| 0 <= k < stack@.len() ==> stack@[k] == s[n - 1 - k],
            decreases all@.len(),
        {
            let e = all.pop().unwrap();
            stack.push(e);
        }
        let mut staying: Vec<Entity> = Vec::new();
        let mut removed: Vec<Entity> = Vec::new();
        let mut i: usize = 0;
        while i < n
            invariant
                i <= n,
                n == s.len(),
                deleted@.len() == n,
                stack@.len() == n - i,
                forall|k: int| 0 <= k < stack@.len() ==> stack@[k] == s[n - 1 - k],
                staying@ == kept(s.take(i as int), deleted@.take(i as int)),
                removed@ == taken(s.take(i as int), deleted@.take(i as int)),
            decreases n - i,
        {
            proof {
                assert(s.take(i + 1).drop_last() =~= s.take(i as int));
                assert(deleted@.take(i + 1).drop_last() =~= deleted@.take(i as int));
                assert(negated(deleted@.take(i + 1)).drop_last() =~= negated(
                    deleted@.take(i as int),
                ));
            }
            let e = stack.pop().unwrap();
            if deleted[i] {
                removed.push(e);
            } else {
                staying.push(e);
            }
            i += 1;
        }
        proof {
            assert(s.take(n as int) =~= s);
            assert(deleted@.take(n as int) =~= deleted@);
            lemma_kept_distinct(s, deleted@);
        }
        self.entities = staying;
        self.physical_count = self.recount();
        removed
    }

    /// The third stage of a frame: removes every marked entity and, once all
    /// of them are out of the scheduler, calls the death hook of each removed
    /// entity that has one, in the order in which they stood. Returns the
    /// removed entities.
    pub fn remove_deleted_entries<H: Hooks>(
        &mut self,
        deleted: &Vec<bool>,
        hooks: &mut H,
    ) -> (removed: Vec<Entity>)
        requires
            old(self).wf(),
            deleted@.len() == old(self).entities@.len(),
        ensures
            final(self).wf(),
            final(self).same_settings(old(self)),
            final(self).entities@ == kept(old(self).entities@, deleted@),
            removed@ == taken(old(self).entities@, deleted@),
    {
        let ghost s = self.entities@;
        let removed = self.take_deleted(deleted);
        let mut i: usize = 0;
        while i < removed.len()
            invariant
                self.wf(),
                i <= removed@.len(),
                s.len() == deleted@.len(),
                names_distinct(s),
                self.entities@ == kept(s, deleted@),
                removed@ == taken(s, deleted@),
            decreases removed@.len() - i,
        {
            if let Some(id) = removed[i].death_callback {
                proof {
                    lemma_kept_sources(s, negated(deleted@));
                    let j = choose|j: int|
                        0 <= j < s.len() && !negated(deleted@)[j] && s[j] == removed@[i as int];
                    lemma_taken_names_gone(s, deleted@, j);
                }
                hooks.death(id, &removed[i], self);
            }
            i += 1;
        }
        removed
    }
}

} // verus!
