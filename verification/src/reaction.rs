//! The second stage of a frame: the entities that collided react to each
//! other through their collision hooks.

use vstd::prelude::*;
use crate::animation::{
    evolved, has_name, lemma_evolved_has_name, lemma_evolved_keeps, lemma_evolved_trans,
    lemma_name_index_unique, name_index, names_distinct, same_identity, Animation,
};
use crate::entity::{applied, bad_frame, CallbackResult, Entity};
use crate::error::{only_frame_errors, AnimationError};
use crate::hooks::Hooks;

verus! {

/// Neither member of the pair is among the entities.
pub open spec fn pair_lost(s: Seq<Entity>, pair: (String, String)) -> bool {
    !has_name(s, pair.0@) && !has_name(s, pair.1@)
}

/// Both members of the pair are among the entities.
pub open spec fn pair_whole(s: Seq<Entity>, pair: (String, String)) -> bool {
    has_name(s, pair.0@) && has_name(s, pair.1@)
}

/// The entity is one of the two that the pair names.
pub open spec fn member_of(e: Entity, pair: (String, String)) -> bool {
    e.name@ == pair.0@ || e.name@ == pair.1@
}

/// Entity `i` is a member of some pair of `collisions` whose members are
/// both there.
pub open spec fn involved(s: Seq<Entity>, collisions: Seq<(String, String)>, i: int) -> bool {
    exists|t: int|
        0 <= t < collisions.len() && pair_whole(s, #[trigger] collisions[t]) && member_of(
            s[i],
            collisions[t],
        )
}

/// The entities and the marks after the hook of the entity at `index` has
/// answered: with its result applied as [`applied`] says and the entity
/// marked if the hook said `die`. `None` stands for an entity that has no
/// hook: nothing is asked and nothing changes.
pub open spec fn answered(
    s: Seq<Entity>,
    marks: Seq<bool>,
    width: int,
    height: int,
    index: int,
    result: Option<CallbackResult>,
) -> (Seq<Entity>, Seq<bool>) {
    match result {
        Some(r) => (
            s.update(index, applied(s[index], r, width, height)),
            marks.update(index, marks[index] || r.die),
        ),
        None => (s, marks),
    }
}

/// The error that the answer of a hook gives: one if it asks for a frame
/// without a picture.
pub open spec fn answer_errors(s: Seq<Entity>, index: int, result: Option<CallbackResult>) -> Seq<
    AnimationError,
> {
    match result {
        Some(r) => if bad_frame(s[index], r) {
            seq![
                AnimationError::InvalidFrame {
                    entity: s[index].name,
                    frame: r.new_frame.unwrap(),
                },
            ]
        } else {
            Seq::empty()
        },
        None => Seq::empty(),
    }
}

/// The entities, the marks and the errors after the entities at `a` and `b`
/// have reacted to each other, the hook of the first answering `results.0`
/// and after it the hook of the second `results.1`.
pub open spec fn pair_resolved(
    s: Seq<Entity>,
    marks: Seq<bool>,
    width: int,
    height: int,
    a: int,
    b: int,
    results: (Option<CallbackResult>, Option<CallbackResult>),
) -> (Seq<Entity>, Seq<bool>, Seq<AnimationError>) {
    let first = answered(s, marks, width, height, a, results.0);
    let second = answered(first.0, first.1, width, height, b, results.1);
    (second.0, second.1, answer_errors(s, a, results.0) + answer_errors(first.0, b, results.1))
}

/// There is an answer exactly for the members that have a collision hook.
pub open spec fn pair_asked(
    s: Seq<Entity>,
    a: int,
    b: int,
    results: (Option<CallbackResult>, Option<CallbackResult>),
) -> bool {
    &&& results.0 is Some <==> s[a].coll_handler is Some
    &&& results.1 is Some <==> s[b].coll_handler is Some
}

/// The entities at `a` and `b` have reacted to each other with `results`:
/// the hooks that exist were asked, and `entities`, `deleted` and `errors`
/// are what their answers give.
pub open spec fn pair_outcome(
    s: Seq<Entity>,
    marks: Seq<bool>,
    width: int,
    height: int,
    a: int,
    b: int,
    results: (Option<CallbackResult>, Option<CallbackResult>),
    entities: Seq<Entity>,
    deleted: Seq<bool>,
    errors: Seq<AnimationError>,
) -> bool {
    &&& pair_asked(s, a, b, results)
    &&& pair_resolved(s, marks, width, height, a, b, results) == (entities, deleted, errors)
}

/// The entities, the marks and the errors after the two entities that
/// `pair` names have reacted to each other with `results`. Where one of them
/// is missing nothing changes.
pub open spec fn named_resolved(
    s: Seq<Entity>,
    marks: Seq<bool>,
    width: int,
    height: int,
    pair: (String, String),
    results: (Option<CallbackResult>, Option<CallbackResult>),
) -> (Seq<Entity>, Seq<bool>, Seq<AnimationError>) {
    if pair_whole(s, pair) {
        pair_resolved(
            s,
            marks,
            width,
            height,
            name_index(s, pair.0@),
            name_index(s, pair.1@),
            results,
        )
    } else {
        (s, marks, Seq::empty())
    }
}

/// There is an answer exactly for the members of `pair` that have a
/// collision hook, and none at all where a member is missing.
pub open spec fn named_asked(
    s: Seq<Entity>,
    pair: (String, String),
    results: (Option<CallbackResult>, Option<CallbackResult>),
) -> bool {
    if pair_whole(s, pair) {
        pair_asked(s, name_index(s, pair.0@), name_index(s, pair.1@), results)
    } else {
        results == (None::<CallbackResult>, None::<CallbackResult>)
    }
}

/// The two entities that `pair` names have reacted to each other with
/// `results`.
pub open spec fn named_outcome(
    s: Seq<Entity>,
    marks: Seq<bool>,
    width: int,
    height: int,
    pair: (String, String),
    results: (Option<CallbackResult>, Option<CallbackResult>),
    entities: Seq<Entity>,
    deleted: Seq<bool>,
    errors: Seq<AnimationError>,
) -> bool {
    &&& named_asked(s, pair, results)
    &&& named_resolved(s, marks, width, height, pair, results) == (entities, deleted, errors)
}

/// The entities, the marks and the errors after the pairs of `collisions`
/// have been resolved one after the other, pair `t` with `results[t]`.
pub open spec fn all_resolved(
    s: Seq<Entity>,
    marks: Seq<bool>,
    width: int,
    height: int,
    collisions: Seq<(String, String)>,
    results: Seq<(Option<CallbackResult>, Option<CallbackResult>)>,
) -> (Seq<Entity>, Seq<bool>, Seq<AnimationError>)
    decreases collisions.len(),
{
    if collisions.len() == 0 {
        (s, marks, Seq::empty())
    } else {
        let before = all_resolved(
            s,
            marks,
            width,
            height,
            collisions.drop_last(),
            results.drop_last(),
        );
        let step = named_resolved(
            before.0,
            before.1,
            width,
            height,
            collisions.last(),
            results.last(),
        );
        (step.0, step.1, before.2 + step.2)
    }
}

/// For every pair there are the answers of the hooks that its members have.
pub open spec fn all_asked(
    s: Seq<Entity>,
    collisions: Seq<(String, String)>,
    results: Seq<(Option<CallbackResult>, Option<CallbackResult>)>,
) -> bool {
    &&& results.len() == collisions.len()
    &&& forall|t: int|
        0 <= t < collisions.len() ==> named_asked(s, collisions[t], #[trigger] results[t])
}

/// The second stage has run with `results`: for each pair the hooks that
/// exist were asked, and `entities`, `deleted` and `errors` are what their
/// answers give, pair after pair.
pub open spec fn handlers_outcome(
    s: Seq<Entity>,
    marks: Seq<bool>,
    width: int,
    height: int,
    collisions: Seq<(String, String)>,
    results: Seq<(Option<CallbackResult>, Option<CallbackResult>)>,
    entities: Seq<Entity>,
    deleted: Seq<bool>,
    errors: Seq<AnimationError>,
) -> bool {
    &&& all_asked(s, collisions, results)
    &&& all_resolved(s, marks, width, height, collisions, results) == (entities, deleted, errors)
}

/// Every entity that has no collision hook, or is a member of none of
/// `pairs` with both members there, is as it was in `s`, and marked as it was
/// in `marks`.
#[verifier::opaque]
pub open spec fn spared(
    s: Seq<Entity>,
    pairs: Seq<(String, String)>,
    entities: Seq<Entity>,
    marks: Seq<bool>,
    deleted: Seq<bool>,
) -> bool {
    forall|i: int|
        0 <= i < s.len() && (s[i].coll_handler is None || !involved(s, pairs, i))
            ==> #[trigger] entities[i] == s[i] && deleted[i] == marks[i]
}

/// [`handlers_outcome`], kept closed while the pairs are worked through.
#[verifier::opaque]
pub open spec fn resolved_so_far(
    s: Seq<Entity>,
    marks: Seq<bool>,
    width: int,
    height: int,
    collisions: Seq<(String, String)>,
    results: Seq<(Option<CallbackResult>, Option<CallbackResult>)>,
    entities: Seq<Entity>,
    deleted: Seq<bool>,
    errors: Seq<AnimationError>,
) -> bool {
    handlers_outcome(s, marks, width, height, collisions, results, entities, deleted, errors)
}

/// An entity that is a member of one of the first `t` pairs is a member of
/// one of the first `t + 1`.
pub proof fn lemma_involved_grows(
    s: Seq<Entity>,
    collisions: Seq<(String, String)>,
    t: int,
    i: int,
)
    requires
        0 <= t < collisions.len(),
        involved(s, collisions.take(t), i),
    ensures
        involved(s, collisions.take(t + 1), i),
{
    let u = choose|u: int|
        0 <= u < collisions.take(t).len() && pair_whole(s, #[trigger] collisions.take(t)[u])
            && member_of(s[i], collisions.take(t)[u]);
    assert(collisions.take(t + 1)[u] == collisions.take(t)[u]);
}

/// One more pair resolved: an entity that has no collision hook, or is a
/// member of none of the pairs so far, is still as it was at the start.
pub proof fn lemma_step_keeps(
    s: Seq<Entity>,
    now: Seq<Entity>,
    after: Seq<Entity>,
    marks: Seq<bool>,
    marked: Seq<bool>,
    after_marks: Seq<bool>,
    collisions: Seq<(String, String)>,
    t: int,
)
    requires
        0 <= t < collisions.len(),
        evolved(s, now),
        now.len() == after.len(),
        spared(s, collisions.take(t), now, marks, marked),
        forall|i: int|
            0 <= i < now.len() && (now[i].coll_handler is None || !pair_whole(now, collisions[t])
                || !member_of(now[i], collisions[t])) ==> #[trigger] after[i] == now[i]
                && after_marks[i] == marked[i],
    ensures
        spared(s, collisions.take(t + 1), after, marks, after_marks),
{
    reveal(spared);
    assert forall|i: int|
        0 <= i < s.len() && (s[i].coll_handler is None || !involved(
            s,
            collisions.take(t + 1),
            i,
        )) implies #[trigger] after[i] == s[i] && after_marks[i] == marks[i] by {
        assert(same_identity(now[i], s[i]));
        if s[i].coll_handler is Some {
            if involved(s, collisions.take(t), i) {
                lemma_involved_grows(s, collisions, t, i);
            }
            assert(now[i] == s[i]);
            if pair_whole(now, collisions[t]) && member_of(now[i], collisions[t]) {
                lemma_evolved_has_name(s, now, collisions[t].0@);
                lemma_evolved_has_name(s, now, collisions[t].1@);
                assert(collisions.take(t + 1)[t] == collisions[t]);
                assert(pair_whole(s, collisions.take(t + 1)[t]));
            }
        }
        assert(after[i] == now[i]);
    }
}

/// One more pair resolved: the outcome of the first `t` pairs and the
/// outcome of pair `t` make the outcome of the first `t + 1`.
pub proof fn lemma_outcome_step(
    s: Seq<Entity>,
    marks: Seq<bool>,
    width: int,
    height: int,
    collisions: Seq<(String, String)>,
    t: int,
    results: Seq<(Option<CallbackResult>, Option<CallbackResult>)>,
    now: Seq<Entity>,
    marked: Seq<bool>,
    errors: Seq<AnimationError>,
    answer: (Option<CallbackResult>, Option<CallbackResult>),
    after: Seq<Entity>,
    after_marks: Seq<bool>,
    more: Seq<AnimationError>,
)
    requires
        0 <= t < collisions.len(),
        names_distinct(s),
        evolved(s, now),
        resolved_so_far(s, marks, width, height, collisions.take(t), results, now, marked, errors),
        named_outcome(now, marked, width, height, collisions[t], answer, after, after_marks, more),
    ensures
        resolved_so_far(
            s,
            marks,
            width,
            height,
            collisions.take(t + 1),
            results.push(answer),
            after,
            after_marks,
            errors + more,
        ),
{
    reveal(resolved_so_far);
    let pairs = collisions.take(t + 1);
    let answers = results.push(answer);
    assert(pairs.drop_last() =~= collisions.take(t));
    assert(answers.drop_last() =~= results);
    assert(pairs.last() == collisions[t]);
    assert(answers.last() == answer);
    lemma_evolved_keeps(s, now);
    assert forall|u: int| 0 <= u < pairs.len() implies named_asked(
        s,
        pairs[u],
        #[trigger] answers[u],
    ) by {
        if u < t {
            assert(pairs[u] == collisions.take(t)[u]);
            assert(answers[u] == results[u]);
        } else {
            let pair = collisions[t];
            if pair_whole(s, pair) {
                assert(same_identity(now[name_index(s, pair.0@)], s[name_index(s, pair.0@)]));
                assert(same_identity(now[name_index(s, pair.1@)], s[name_index(s, pair.1@)]));
            }
        }
    }
}

impl Animation {
    /// Applies the result of one hook to the entity at `index` and marks the
    /// entity if the hook said `die`. A result that asks for a frame without a
    /// picture gives an error and leaves the frame as it is.
    pub fn apply_result(
        &mut self,
        index: usize,
        result: &CallbackResult,
        deleted: &mut Vec<bool>,
    ) -> (r: Option<AnimationError>)
        requires
            old(self).wf(),
            index < old(self).entities@.len(),
            old(deleted)@.len() == old(self).entities@.len(),
        ensures
            final(self).wf(),
            final(self).same_settings(old(self)),
            final(self).entities@ == old(self).entities@.update(
                index as int,
                applied(
                    old(self).entities@[index as int],
                    *result,
                    old(self).width as int,
                    old(self).height as int,
                ),
            ),
            final(deleted)@ == old(deleted)@.update(
                index as int,
                old(deleted)@[index as int] || result.die,
            ),
            bad_frame(old(self).entities@[index as int], *result) ==> r == Some(
                AnimationError::InvalidFrame {
                    entity: old(self).entities@[index as int].name,
                    frame: result.new_frame.unwrap(),
                },
            ),
            !bad_frame(old(self).entities@[index as int], *result) ==> r is None,
    {
        let width: i16 = self.width;
        let height: i16 = self.height;
        let outcome = self.entities[index].apply(result, width, height);
        if result.die {
            deleted.set(index, true);
        }
        proof {
            assert(self.entities@ =~= old(self).entities@.update(
                index as int,
                applied(
                    old(self).entities@[index as int],
                    *result,
                    old(self).width as int,
                    old(self).height as int,
                ),
            ));
            assert(deleted@ =~= old(deleted)@.update(
                index as int,
                old(deleted)@[index as int] || result.die,
            ));
            assert(evolved(old(self).entities@, self.entities@));
            lemma_evolved_keeps(old(self).entities@, self.entities@);
        }
        match outcome {
            Ok(()) => None,
            Err(error) => Some(error),
        }
    }

    /// Lets two entities that collided react to each other: the collision
    /// hook of the entity at `a` is asked, with the entity at `b` as the
    /// other one, and its result applied; after that the hook of the entity
    /// at `b`, which sees the first as the hook left it. Returns the errors of
    /// the two results.
    ///
    /// What the hooks return is not known here. Given their answers the
    /// outcome is as [`pair_outcome`] says. Whatever they answer, only the
    /// two entities can have changed, each in its place and frame alone and
    /// only if it has a collision hook; a mark stays.
    pub fn resolve_pair<H: Hooks>(
        &mut self,
        a: usize,
        b: usize,
        deleted: &mut Vec<bool>,
        hooks: &mut H,
    ) -> (errors: Vec<AnimationError>)
        requires
            old(self).wf(),
            a < old(self).entities@.len(),
            b < old(self).entities@.len(),
            old(deleted)@.len() == old(self).entities@.len(),
        ensures
            final(self).wf(),
            final(self).same_settings(old(self)),
            evolved(old(self).entities@, final(self).entities@),
            final(deleted)@.len() == old(deleted)@.len(),
            forall|i: int|
                0 <= i < old(deleted)@.len() && old(deleted)@[i] ==> #[trigger] final(deleted)@[i],
            forall|i: int|
                0 <= i < old(self).entities@.len() && ((i != a && i != b)
                    || old(self).entities@[i].coll_handler is None)
                    ==> #[trigger] final(self).entities@[i] == old(self).entities@[i]
                    && final(deleted)@[i] == old(deleted)@[i],
            errors@.len() <= 2,
            only_frame_errors(errors@),
            exists|results: (Option<CallbackResult>, Option<CallbackResult>)|
                pair_outcome(
                    old(self).entities@,
                    old(deleted)@,
                    old(self).width as int,
                    old(self).height as int,
                    a as int,
                    b as int,
                    results,
                    final(self).entities@,
                    final(deleted)@,
                    errors@,
                ),
    {
        let ghost s = self.entities@;
        let ghost marks = deleted@;
        let ghost w = self.width as int;
        let ghost h = self.height as int;
        let ghost mut first: Option<CallbackResult> = None;
        let ghost mut second: Option<CallbackResult> = None;
        let mut errors: Vec<AnimationError> = Vec::new();
        if let Some(id) = self.entities[a].coll_handler {
            assert(self.holds(self.entities@[a as int]) && self.holds(self.entities@[b as int]));
            let result = hooks.collision(id, &self.entities[a], &self.entities[b], self);
            if let Some(error) = self.apply_result(a, &result, deleted) {
                errors.push(error);
            }
            proof {
                first = Some(result);
            }
        }
        let ghost mid = self.entities@;
        let ghost mid_marks = deleted@;
        let ghost mid_errors = errors@;
        assert(evolved(s, mid));
        assert(answered(s, marks, w, h, a as int, first) == (mid, mid_marks));
        assert(mid_errors =~= answer_errors(s, a as int, first));
        if let Some(id) = self.entities[b].coll_handler {
            assert(self.holds(self.entities@[a as int]) && self.holds(self.entities@[b as int]));
            let result = hooks.collision(id, &self.entities[b], &self.entities[a], self);
            if let Some(error) = self.apply_result(b, &result, deleted) {
                errors.push(error);
            }
            proof {
                second = Some(result);
            }
        }
        assert(evolved(s, self.entities@));
        proof {
            assert(same_identity(mid[b as int], s[b as int]));
            assert(answered(mid, mid_marks, w, h, b as int, second) == (self.entities@, deleted@));
            assert(errors@ =~= mid_errors + answer_errors(mid, b as int, second));
            assert(pair_outcome(
                s,
                marks,
                w,
                h,
                a as int,
                b as int,
                (first, second),
                self.entities@,
                deleted@,
                errors@,
            ));
        }
        errors
    }

    /// Lets the two entities that `pair` names react to each other, as
    /// [`Animation::resolve_pair`] says, if both are in the scheduler; where
    /// one is missing nothing is done. Given the answers of the hooks the
    /// outcome is as [`named_outcome`] says.
    pub fn resolve_named<H: Hooks>(
        &mut self,
        pair: &(String, String),
        deleted: &mut Vec<bool>,
        hooks: &mut H,
    ) -> (errors: Vec<AnimationError>)
        requires
            old(self).wf(),
            old(deleted)@.len() == old(self).entities@.len(),
        ensures
            final(self).wf(),
            final(self).same_settings(old(self)),
            evolved(old(self).entities@, final(self).entities@),
            final(deleted)@.len() == old(deleted)@.len(),
            forall|i: int|
                0 <= i < old(deleted)@.len() && old(deleted)@[i] ==> #[trigger] final(deleted)@[i],
            forall|i: int|
                0 <= i < old(self).entities@.len() && (old(self).entities@[i].coll_handler is None
                    || !pair_whole(old(self).entities@, *pair) || !member_of(
                    old(self).entities@[i],
                    *pair,
                )) ==> #[trigger] final(self).entities@[i] == old(self).entities@[i]
                    && final(deleted)@[i] == old(deleted)@[i],
            only_frame_errors(errors@),
            exists|results: (Option<CallbackResult>, Option<CallbackResult>)|
                named_outcome(
                    old(self).entities@,
                    old(deleted)@,
                    old(self).width as int,
                    old(self).height as int,
                    *pair,
                    results,
                    final(self).entities@,
                    final(deleted)@,
                    errors@,
                ),
    {
        let ghost s = self.entities@;
        let ghost marks = deleted@;
        let ghost w = self.width as int;
        let ghost h = self.height as int;
        let first = self.index_of(&pair.0);
        let second = self.index_of(&pair.1);
        if let Some(a) = first {
            if let Some(b) = second {
                let errors = self.resolve_pair(a, b, deleted, hooks);
                proof {
                    lemma_name_index_unique(s, a as int);
                    lemma_name_index_unique(s, b as int);
                    let results = choose|results: (Option<CallbackResult>, Option<CallbackResult>)|
                        pair_outcome(
                            s,
                            marks,
                            w,
                            h,
                            a as int,
                            b as int,
                            results,
                            self.entities@,
                            deleted@,
                            errors@,
                        );
                    assert(named_outcome(
                        s,
                        marks,
                        w,
                        h,
                        *pair,
                        results,
                        self.entities@,
                        deleted@,
                        errors@,
                    ));
                }
                return errors;
            }
        }
        let errors: Vec<AnimationError> = Vec::new();
        proof {
            assert(evolved(self.entities@, self.entities@));
            assert(named_outcome(
                s,
                marks,
                w,
                h,
                *pair,
                (None::<CallbackResult>, None::<CallbackResult>),
                self.entities@,
                deleted@,
                errors@,
            ));
        }
        errors
    }

    /// The second stage of a frame, for the pairs of `collisions`. For each
    /// pair whose members are both in the scheduler, the collision hook of
    /// the first member is asked (with the second as the other entity) and
    /// its result applied, and likewise the hook of the second member.
    /// Nothing is removed: a hook that says `die` has its entity marked. A
    /// pair with one member missing is passed over.
    ///
    /// A pair with both members missing is a fault. The pairs are looked
    /// through before any hook is asked, so after a fault nothing has
    /// changed; the error names the first such pair.
    ///
    /// What the hooks return is not known here. Given their answers the
    /// outcome is as [`handlers_outcome`] says. Whatever they answer: the
    /// entities keep their names, order and everything but place and frame;
    /// a mark stays; and an entity that has no collision hook, or is a member
    /// of no pair with both members there, is left as it is.
    pub fn collision_handlers<H: Hooks>(
        &mut self,
        collisions: &Vec<(String, String)>,
        deleted: &mut Vec<bool>,
        hooks: &mut H,
    ) -> (r: Result<Vec<AnimationError>, AnimationError>)
        requires
            old(self).wf(),
            old(deleted)@.len() == old(self).entities@.len(),
        ensures
            final(self).wf(),
            final(self).same_settings(old(self)),
            evolved(old(self).entities@, final(self).entities@),
            final(deleted)@.len() == old(deleted)@.len(),
            forall|i: int|
                0 <= i < old(deleted)@.len() && old(deleted)@[i] ==> #[trigger] final(deleted)@[i],
            forall|i: int|
                0 <= i < old(self).entities@.len() && (old(self).entities@[i].coll_handler is None
                    || !involved(old(self).entities@, collisions@, i))
                    ==> #[trigger] final(self).entities@[i] == old(self).entities@[i]
                    && final(deleted)@[i] == old(deleted)@[i],
            r is Err <==> exists|t: int|
                0 <= t < collisions@.len() && pair_lost(
                    old(self).entities@,
                    #[trigger] collisions@[t],
                ),
            r matches Ok(errors) ==> only_frame_errors(errors@),
            r matches Ok(errors) ==> exists|results: Seq<
                (Option<CallbackResult>, Option<CallbackResult>),
            >|
                handlers_outcome(
                    old(self).entities@,
                    old(deleted)@,
                    old(self).width as int,
                    old(self).height as int,
                    collisions@,
                    results,
                    final(self).entities@,
                    final(deleted)@,
                    errors@,
                ),
            r is Err ==> final(self).entities@ == old(self).entities@ && final(deleted)@
                == old(deleted)@,
            r matches Err(error) ==> exists|t: int|
                0 <= t < collisions@.len() && pair_lost(
                    old(self).entities@,
                    #[trigger] collisions@[t],
                ) && error == (AnimationError::CollisionConsistencyFault {
                    first: collisions@[t].0,
                    second: collisions@[t].1,
                }) && forall|u: int| 0 <= u < t ==> !pair_lost(old(self).entities@, collisions@[u]),
    {
        let ghost s = self.entities@;
        let ghost marks = deleted@;
        let mut t: usize = 0;
        while t < collisions.len()
            invariant
                t <= collisions@.len(),
                *self == *old(self),
                old(self).wf(),
                s == self.entities@,
                deleted@ == marks,
                marks.len() == s.len(),
                forall|u: int| 0 <= u < t ==> !pair_lost(s, #[trigger] collisions@[u]),
            decreases collisions@.len() - t,
        {
            let first = self.index_of(&collisions[t].0);
            let second = self.index_of(&collisions[t].1);
            if first.is_none() && second.is_none() {
                proof {
                    assert(pair_lost(s, collisions@[t as int]));
                    assert(evolved(s, s));
                }
                return Err(
                    AnimationError::CollisionConsistencyFault {
                        first: collisions[t].0.clone(),
                        second: collisions[t].1.clone(),
                    },
                );
            }
            t += 1;
        }
        let ghost w = self.width as int;
        let ghost h = self.height as int;
        let ghost mut results: Seq<(Option<CallbackResult>, Option<CallbackResult>)> = Seq::empty();
        let mut errors: Vec<AnimationError> = Vec::new();
        let mut t: usize = 0;
        proof {
            assert(evolved(s, s));
            reveal(spared);
            reveal(resolved_so_far);
            assert(collisions@.take(0) =~= Seq::<(String, String)>::empty());
        }
        while t < collisions.len()
            invariant
                t <= collisions@.len(),
                self.wf(),
                s == old(self).entities@,
                names_distinct(s),
                w == self.width as int,
                h == self.height as int,
                self.same_settings(old(self)),
                evolved(s, self.entities@),
                deleted@.len() == marks.len(),
                marks.len() == s.len(),
                forall|u: int|
                    0 <= u < collisions@.len() ==> !pair_lost(s, #[trigger] collisions@[u]),
                forall|i: int| 0 <= i < marks.len() && marks[i] ==> #[trigger] deleted@[i],
                spared(s, collisions@.take(t as int), self.entities@, marks, deleted@),
                resolved_so_far(
                    s,
                    marks,
                    w,
                    h,
                    collisions@.take(t as int),
                    results,
                    self.entities@,
                    deleted@,
                    errors@,
                ),
                only_frame_errors(errors@),
            decreases collisions@.len() - t,
        {
            let ghost now = self.entities@;
            let ghost marked = deleted@;
            let ghost so_far = errors@;
            let mut more = self.resolve_named(&collisions[t], deleted, hooks);
            let ghost added = more@;
            errors.append(&mut more);
            proof {
                let answer = choose|answer: (Option<CallbackResult>, Option<CallbackResult>)|
                    named_outcome(
                        now,
                        marked,
                        w,
                        h,
                        collisions@[t as int],
                        answer,
                        self.entities@,
                        deleted@,
                        added,
                    );
                lemma_evolved_trans(s, now, self.entities@);
                lemma_step_keeps(
                    s,
                    now,
                    self.entities@,
                    marks,
                    marked,
                    deleted@,
                    collisions@,
                    t as int,
                );
                lemma_outcome_step(
                    s,
                    marks,
                    w,
                    h,
                    collisions@,
                    t as int,
                    results,
                    now,
                    marked,
                    so_far,
                    answer,
                    self.entities@,
                    deleted@,
                    added,
                );
                results = results.push(answer);
            }
            t += 1;
        }
        proof {
            assert(collisions@.take(collisions@.len() as int) =~= collisions@);
            reveal(spared);
            reveal(resolved_so_far);
        }
        let r: Result<Vec<AnimationError>, AnimationError> = Ok(errors);
        proof {
            assert(handlers_outcome(
                s,
                marks,
                w,
                h,
                collisions@,
                results,
                self.entities@,
                deleted@,
                (r->Ok_0)@,
            ));
        }
        r
    }
}

} // verus!
