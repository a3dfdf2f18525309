//! The first stage of a frame: the behaviour hooks of the living are asked
//! and their answers applied.

use vstd::prelude::*;
use crate::animation::{evolved, lemma_evolved_keeps, Animation};
use crate::death::{death_marks, dies, ticked_all};
use crate::entity::{applied, bad_frame, CallbackResult, Entity};
use crate::error::{only_frame_errors, AnimationError};
use crate::hooks::Hooks;

verus! {

/// The entities after the hooks' results have been applied: entity `i` as
/// [`applied`] says where there is a result for it, unchanged where not.
pub open spec fn applied_all(
    s: Seq<Entity>,
    results: Seq<Option<CallbackResult>>,
    width: int,
    height: int,
) -> Seq<Entity> {
    Seq::new(
        s.len(),
        |i: int|
            match results[i] {
                Some(r) => applied(s[i], r, width, height),
                None => s[i],
            },
    )
}

/// The marks after the hooks' results: a mark stays, and an entity whose hook
/// said `die` is marked.
pub open spec fn marks_after(marks: Seq<bool>, results: Seq<Option<CallbackResult>>) -> Seq<bool> {
    Seq::new(marks.len(), |i: int| marks[i] || (results[i] matches Some(r) && r.die))
}

/// The errors that applying the results gives, in the order of the entities:
/// one for each result that asks for a frame without a picture.
pub open spec fn frame_errors(s: Seq<Entity>, results: Seq<Option<CallbackResult>>) -> Seq<
    AnimationError,
>
    decreases s.len(),
{
    if s.len() == 0 {
        Seq::empty()
    } else {
        let before = frame_errors(s.drop_last(), results.drop_last());
        match results.last() {
            Some(r) => if bad_frame(s.last(), r) {
                before.push(
                    AnimationError::InvalidFrame {
                        entity: s.last().name,
                        frame: r.new_frame.unwrap(),
                    },
                )
            } else {
                before
            },
            None => before,
        }
    }
}

/// What the first stage leaves behind, given the results that the behaviour
/// hooks returned. The entities are first made one frame older. A hook was
/// asked for each entity that does not die and has a behaviour hook, and for
/// no other. The entities are the older ones with the results applied, the
/// marks are those of death together with what the hooks asked for, and the
/// errors are those of the results.
pub open spec fn callbacks_outcome(
    start: Seq<Entity>,
    width: int,
    height: int,
    results: Seq<Option<CallbackResult>>,
    entities: Seq<Entity>,
    deleted: Seq<bool>,
    errors: Seq<AnimationError>,
) -> bool {
    let aged = ticked_all(start);
    &&& results.len() == start.len()
    &&& forall|i: int|
        0 <= i < start.len() ==> ((#[trigger] results[i]) is Some <==> !dies(
            aged,
            i,
            width,
            height,
        ) && aged[i].callback is Some)
    &&& entities == applied_all(aged, results, width, height)
    &&& deleted == marks_after(death_marks(aged, width, height), results)
    &&& errors == frame_errors(aged, results)
}

/// The errors of the results are all about frames without a picture.
pub proof fn lemma_frame_errors_kind(s: Seq<Entity>, results: Seq<Option<CallbackResult>>)
    ensures
        only_frame_errors(frame_errors(s, results)),
    decreases s.len(),
{
    if s.len() > 0 {
        lemma_frame_errors_kind(s.drop_last(), results.drop_last());
    }
}

impl Animation {
    /// Asks the behaviour hook of every entity that is not marked and has
    /// one. The scheduler is only read: every hook sees the same entities.
    pub fn collect_callbacks<H: Hooks>(&self, deleted: &Vec<bool>, hooks: &mut H) -> (results: Vec<
        Option<CallbackResult>,
    >)
        requires
            self.wf(),
            deleted@.len() == self.entities@.len(),
        ensures
            results@.len() == self.entities@.len(),
            forall|i: int|
                0 <= i < results@.len() ==> ((#[trigger] results@[i]) is Some <==> !deleted@[i]
                    && self.entities@[i].callback is Some),
    {
        let mut results: Vec<Option<CallbackResult>> = Vec::new();
        let mut i: usize = 0;
        while i < self.entities.len()
            invariant
                self.wf(),
                deleted@.len() == self.entities@.len(),
                i <= self.entities@.len(),
                results@.len() == i,
                forall|k: int|
                    0 <= k < i ==> ((#[trigger] results@[k]) is Some <==> !deleted@[k]
                        && self.entities@[k].callback is Some),
            decreases self.entities@.len() - i,
        {
            let mut result: Option<CallbackResult> = None;
            if !deleted[i] {
                if let Some(id) = self.entities[i].callback {
                    assert(self.holds(self.entities@[i as int]));
                    result = Some(hooks.callback(id, &self.entities[i], self));
                }
            }
            results.push(result);
            i += 1;
        }
        results
    }

    /// Applies the results of the behaviour hooks, entity by entity, and
    /// marks the entities whose hook said `die`. A result that asks for a
    /// frame without a picture gives an error and leaves the frame as it is.
    pub fn apply_callbacks(
        &mut self,
        results: &Vec<Option<CallbackResult>>,
        deleted: &mut Vec<bool>,
    ) -> (errors: Vec<AnimationError>)
        requires
            old(self).wf(),
            results@.len() == old(self).entities@.len(),
            old(deleted)@.len() == old(self).entities@.len(),
        ensures
            final(self).wf(),
            final(self).same_settings(old(self)),
            final(self).entities@ == applied_all(
                old(self).entities@,
                results@,
                old(self).width as int,
                old(self).height as int,
            ),
            final(deleted)@ == marks_after(old(deleted)@, results@),
            errors@ == frame_errors(old(self).entities@, results@),
    {
        let ghost s = self.entities@;
        let ghost w = self.width as int;
        let ghost h = self.height as int;
        let width: i16 = self.width;
        let height: i16 = self.height;
        let ghost marks = deleted@;
        let mut errors: Vec<AnimationError> = Vec::new();
        let mut i: usize = 0;
        while i < self.entities.len()
            invariant
                i <= s.len(),
                self.entities@.len() == s.len(),
                results@.len() == s.len(),
                deleted@.len() == s.len(),
                marks.len() == s.len(),
                self.same_settings(old(self)),
                self.physical_count == old(self).physical_count,
                width == w,
                height == h,
                forall|k: int|
                    0 <= k < i ==> self.entities@[k] == applied_all(s, results@, w, h)[k],
                forall|k: int| i <= k < s.len() ==> self.entities@[k] == s[k],
                forall|k: int| 0 <= k < i ==> deleted@[k] == marks_after(marks, results@)[k],
                forall|k: int| i <= k < s.len() ==> deleted@[k] == marks[k],
                errors@ == frame_errors(s.take(i as int), results@.take(i as int)),
            decreases s.len() - i,
        {
            proof {
                assert(s.take(i + 1).drop_last() =~= s.take(i as int));
                assert(results@.take(i + 1).drop_last() =~= results@.take(i as int));
            }
            if let Some(result) = results[i] {
                match self.entities[i].apply(&result, width, height) {
                    Ok(()) => {},
                    Err(error) => {
                        errors.push(error);
                    },
                }
                if result.die {
                    deleted.set(i, true);
                }
            }
            i += 1;
        }
        proof {
            assert(s.take(s.len() as int) =~= s);
            assert(results@.take(s.len() as int) =~= results@);
            assert(self.entities@ =~= applied_all(s, results@, w, h));
            assert(deleted@ =~= marks_after(marks, results@));
            assert(evolved(s, self.entities@));
            lemma_evolved_keeps(s, self.entities@);
        }
        errors
    }

    /// The first stage of a frame. Every entity grows one frame older; who
    /// dies is found ([`dies`]); each entity that lives and has a behaviour
    /// hook has it asked, and the results are applied. Returns the marks, for
    /// the dying and for those whose hook said `die`, and the errors.
    ///
    /// What the hooks returned decides the outcome and is not known here:
    /// the outcome is as [`callbacks_outcome`] says for the results that
    /// they did return.
    pub fn do_callbacks<H: Hooks>(&mut self, hooks: &mut H) -> (r: (Vec<bool>, Vec<AnimationError>))
        requires
            old(self).wf(),
        ensures
            final(self).wf(),
            final(self).same_settings(old(self)),
            exists|found: Seq<Option<CallbackResult>>|
                callbacks_outcome(
                    old(self).entities@,
                    old(self).width as int,
                    old(self).height as int,
                    found,
                    final(self).entities@,
                    r.0@,
                    r.1@,
                ),
    {
        self.tick();
        let mut deleted = self.doomed();
        let results = self.collect_callbacks(&deleted, hooks);
        let errors = self.apply_callbacks(&results, &mut deleted);
        let r = (deleted, errors);
        proof {
            assert(callbacks_outcome(
                old(self).entities@,
                old(self).width as int,
                old(self).height as int,
                results@,
                self.entities@,
                r.0@,
                r.1@,
            ));
        }
        r
    }
}

} // verus!
