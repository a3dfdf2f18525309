//! One frame of the animation: the stages in their order.

use vstd::prelude::*;
use crate::animation::{
    count_physical, evolved, has_name, lemma_alike_keeps, lemma_evolved_alike,
    lemma_evolved_has_name, lemma_evolved_keeps, lemma_evolved_trans, names_distinct,
    same_identity, Animation, FrameReport,
};
use crate::callbacks::{
    applied_all, callbacks_outcome, frame_errors, lemma_frame_errors_kind, marks_after,
};
use crate::collision::{collision_pairs, lemma_collision_pairs, named_pairs, pair_names};
use crate::death::{
    alone_marks, closed_under_reference, death_marks, dies, dies_alone, lemma_countdown_dies,
    lemma_reference_alike, lemma_spread_closed, lemma_ticked_all, lemma_unbound_unmarked,
    marked_within, reference_of, spread_marks, ticked_all,
};
use crate::entity::{CallbackResult, Entity};
use crate::error::{only_frame_errors, AnimationError};
use crate::follow::{followers_moved, follows_leader};
use crate::hooks::Hooks;
use crate::reaction::{all_asked, all_resolved, handlers_outcome, involved, member_of, pair_lost};
use crate::removal::{kept, lemma_kept_holds, lemma_kept_sources, lemma_taken_names_gone, taken};

verus! {

/// What holds of a frame whatever the hooks answer. The frame starts with
/// the entities `start` on a canvas of `width` by `height` cells; `mid` are
/// the entities as the hooks of the first two stages left them, and
/// `deleted` are the marks by which the third stage removes.
///
/// The hooks decide where an entity that they were asked about stands, which
/// frame it shows and whether it is marked. Everything else is fixed: the
/// entities are those of `start`, one frame older, in their order; every
/// entity that dies ([`dies`]) is marked, and no hook touched it; no hook
/// touched an entity that does not die and has neither a behaviour hook nor a
/// collision hook, and such an entity is not marked unless it is bound to
/// another; who is bound to a marked entity is marked. The marked entities
/// are removed, and among the others the followers take their places.
pub open spec fn frame_outcome(
    start: Seq<Entity>,
    width: int,
    height: int,
    mid: Seq<Entity>,
    deleted: Seq<bool>,
    after: Seq<Entity>,
    removed: Seq<Entity>,
) -> bool {
    let aged = ticked_all(start);
    &&& deleted.len() == start.len()
    &&& evolved(aged, mid)
    &&& forall|i: int|
        0 <= i < start.len() && dies(aged, i, width, height) ==> #[trigger] deleted[i] && mid[i]
            == aged[i]
    &&& forall|i: int|
        0 <= i < start.len() && !dies(aged, i, width, height) && aged[i].callback is None
            && aged[i].coll_handler is None ==> #[trigger] mid[i] == aged[i]
    &&& forall|i: int|
        0 <= i < start.len() && !dies(aged, i, width, height) && aged[i].callback is None
            && aged[i].coll_handler is None && aged[i].die_entity is None ==> !(
        #[trigger] deleted[i])
    &&& closed_under_reference(mid, deleted)
    &&& after == followers_moved(kept(mid, deleted), width, height)
    &&& removed == taken(mid, deleted)
}

/// What a frame makes of the entities `start` on a canvas of `width` by
/// `height` cells, given what the hooks returned: `answers[i]` is the answer
/// of the behaviour hook of entity `i`, and `reactions[t]` are the answers of
/// the collision hooks of the two members of the `t`-th collision.
///
/// The entities grow one frame older. The behaviour hook of each entity that
/// does not die and has one is asked, and the answers are applied. If there
/// are physical entities, the collisions among the entities that are not
/// marked by now are resolved in their order. The marks spread along the
/// bonds of death ([`spread_marks`]), the marked entities are removed, and
/// among the others the followers take their places. The errors are those of
/// the behaviour hooks, then those of the collision hooks.
pub open spec fn frame_exact(
    start: Seq<Entity>,
    width: int,
    height: int,
    answers: Seq<Option<CallbackResult>>,
    reactions: Seq<(Option<CallbackResult>, Option<CallbackResult>)>,
    after: Seq<Entity>,
    removed: Seq<Entity>,
    errors: Seq<AnimationError>,
) -> bool {
    let aged = ticked_all(start);
    let first = applied_all(aged, answers, width, height);
    let marks = marks_after(death_marks(aged, width, height), answers);
    let collisions = if count_physical(start) > 0 {
        pair_names(first, collision_pairs(first, marks))
    } else {
        Seq::empty()
    };
    let second = all_resolved(first, marks, width, height, collisions, reactions);
    let gone = spread_marks(second.0, second.1);
    &&& answers.len() == start.len()
    &&& forall|i: int|
        0 <= i < start.len() ==> ((#[trigger] answers[i]) is Some <==> !dies(
            aged,
            i,
            width,
            height,
        ) && aged[i].callback is Some)
    &&& all_asked(first, collisions, reactions)
    &&& after == followers_moved(kept(second.0, gone), width, height)
    &&& removed == taken(second.0, gone)
    &&& errors == frame_errors(aged, answers) + second.2
}

/// The hooks left entity `i` alone if it dies, or if it has neither a
/// behaviour hook nor a collision hook: it is as it was, marked if it dies
/// and not marked if it does not.
pub open spec fn untouched(
    aged: Seq<Entity>,
    width: int,
    height: int,
    entities: Seq<Entity>,
    deleted: Seq<bool>,
    i: int,
) -> bool {
    &&& dies(aged, i, width, height) ==> deleted[i] && entities[i] == aged[i]
    &&& !dies(aged, i, width, height) && aged[i].callback is None && aged[i].coll_handler is None
        ==> !deleted[i] && entities[i] == aged[i]
}

/// After the removal no entity is bound to an entity that is not there.
/// `aged` are the entities at the start of the frame, one frame older, `mid`
/// the entities and `last` the marks after the hooks; `rest` is what the
/// removal by the spread marks keeps, and `after` are the entities of `rest`
/// moved.
pub proof fn lemma_partner_stays(
    aged: Seq<Entity>,
    width: int,
    height: int,
    mid: Seq<Entity>,
    last: Seq<bool>,
    rest: Seq<Entity>,
    after: Seq<Entity>,
    k: int,
)
    requires
        names_distinct(aged),
        evolved(aged, mid),
        last.len() == mid.len(),
        forall|i: int| 0 <= i < aged.len() ==> untouched(aged, width, height, mid, last, i),
        rest == kept(mid, spread_marks(mid, last)),
        evolved(rest, after),
        0 <= k < after.len(),
    ensures
        after[k].die_entity matches Some(name) ==> has_name(after, name@),
{
    let gone = spread_marks(mid, last);
    if after[k].die_entity is Some {
        let name = after[k].die_entity.unwrap();
        assert(same_identity(after[k], rest[k]));
        lemma_kept_sources(mid, gone);
        let i = choose|i: int| 0 <= i < mid.len() && !gone[i] && mid[i] == rest[k];
        lemma_spread_closed(mid, last);
        assert(untouched(aged, width, height, mid, last, i));
        assert(same_identity(mid[i], aged[i]));
        assert(!dies(aged, i, width, height));
        assert(!dies_alone(aged, i, width, height)) by {
            if dies_alone(aged, i, width, height) {
                assert(marked_within(aged, alone_marks(aged, width, height), i, 0));
            }
        }
        lemma_evolved_alike(aged, mid);
        lemma_reference_alike(aged, mid, i);
        let j = reference_of(mid, i).unwrap();
        assert(!gone[j]);
        lemma_kept_holds(mid, gone, j);
        lemma_evolved_has_name(rest, after, name@);
    }
}

/// A marked entity is a member of no collision.
pub proof fn lemma_marked_not_involved(
    s: Seq<Entity>,
    deleted: Seq<bool>,
    collisions: Seq<(String, String)>,
    i: int,
)
    requires
        names_distinct(s),
        s.len() == deleted.len(),
        named_pairs(s, collision_pairs(s, deleted), collisions),
        0 <= i < s.len(),
        deleted[i],
    ensures
        !involved(s, collisions, i),
{
    lemma_collision_pairs(s, deleted);
    let places = collision_pairs(s, deleted);
    assert forall|t: int| 0 <= t < collisions.len() implies !member_of(
        s[i],
        #[trigger] collisions[t],
    ) by {
        let p = places[t];
        if i < p.0 {
            assert(s[i].name@ != s[p.0].name@);
        }
        if p.0 < i {
            assert(s[p.0].name@ != s[i].name@);
        }
        if i < p.1 {
            assert(s[i].name@ != s[p.1].name@);
        }
        if p.1 < i {
            assert(s[p.1].name@ != s[i].name@);
        }
    }
}

/// The collisions that were found name entities that are there.
pub proof fn lemma_found_pairs_whole(
    s: Seq<Entity>,
    deleted: Seq<bool>,
    collisions: Seq<(String, String)>,
)
    requires
        named_pairs(s, collision_pairs(s, deleted), collisions),
    ensures
        forall|t: int| 0 <= t < collisions.len() ==> !pair_lost(s, #[trigger] collisions[t]),
{
    lemma_collision_pairs(s, deleted);
    let places = collision_pairs(s, deleted);
    assert forall|t: int| 0 <= t < collisions.len() implies !pair_lost(
        s,
        #[trigger] collisions[t],
    ) by {
        let p = places[t];
        assert(s[p.0].name@ == collisions[t].0@);
    }
}

impl Animation {
    /// Computes one frame.
    ///
    /// 1. Every entity grows one frame older. Who dies is decided, and the
    ///    behaviour hooks of the living are asked and their results applied
    ///    ([`Animation::do_callbacks`]).
    /// 2. If there are physical entities, the collisions among the entities
    ///    that are not marked are found and the collision hooks asked
    ///    ([`Animation::find_collisions`], [`Animation::collision_handlers`]).
    /// 3. Whoever is bound to a marked entity is marked too
    ///    ([`Animation::spread`]). The marked entities are removed and their
    ///    death hooks called ([`Animation::remove_deleted_entries`]).
    /// 4. The followers take their places ([`Animation::move_followers`]).
    ///
    /// The report lists the removed entities and the errors of single
    /// entities; no such error stops the frame. Drawing the entities is not
    /// part of the frame.
    ///
    /// What the hooks return is not known here. Given their answers the frame
    /// is as [`frame_exact`] says; [`frame_outcome`] says what holds of it
    /// whatever they answer. In particular an entity that dies is gone after
    /// the frame, so one whose countdown stood at 1; no entity outlives the
    /// entity it is bound to, however that one went; a follower whose chain
    /// of leaders ends stands beside its leader; and every error of the
    /// report is about a frame without a picture.
    pub fn animate<H: Hooks>(&mut self, hooks: &mut H) -> (report: FrameReport)
        requires
            old(self).wf(),
        ensures
            final(self).wf(),
            final(self).same_settings(old(self)),
            exists|
                answers: Seq<Option<CallbackResult>>,
                reactions: Seq<(Option<CallbackResult>, Option<CallbackResult>)>,
            |
                frame_exact(
                    old(self).entities@,
                    old(self).width as int,
                    old(self).height as int,
                    answers,
                    reactions,
                    final(self).entities@,
                    report.removed@,
                    report.errors@,
                ),
            exists|mid: Seq<Entity>, deleted: Seq<bool>|
                frame_outcome(
                    old(self).entities@,
                    old(self).width as int,
                    old(self).height as int,
                    mid,
                    deleted,
                    final(self).entities@,
                    report.removed@,
                ),
            forall|i: int|
                0 <= i < old(self).entities@.len() && dies(
                    ticked_all(old(self).entities@),
                    i,
                    old(self).width as int,
                    old(self).height as int,
                ) ==> !has_name(final(self).entities@, #[trigger] old(self).entities@[i].name@),
            forall|i: int|
                0 <= i < old(self).entities@.len() && (
                #[trigger] old(self).entities@[i].die_frame matches Some(n) && n <= 1)
                    ==> !has_name(final(self).entities@, old(self).entities@[i].name@),
            forall|k: int|
                0 <= k < final(self).entities@.len() ==> (
                #[trigger] final(self).entities@[k].die_entity matches Some(name) ==> has_name(
                    final(self).entities@,
                    name@,
                )),
            forall|i: int|
                0 <= i < final(self).entities@.len() ==> follows_leader(
                    final(self).entities@,
                    i,
                    old(self).width as int,
                    old(self).height as int,
                ),
            only_frame_errors(report.errors@),
    {
        let ghost start = self.entities@;
        let ghost aged = ticked_all(start);
        let ghost w = self.width as int;
        let ghost h = self.height as int;
        let (mut deleted, mut errors) = self.do_callbacks(hooks);
        let ghost first = self.entities@;
        let ghost marks = deleted@;
        let ghost early = errors@;
        let ghost results = choose|results: Seq<Option<CallbackResult>>|
            callbacks_outcome(start, w, h, results, first, marks, early);
        let ghost mut reactions: Seq<(Option<CallbackResult>, Option<CallbackResult>)> =
            Seq::empty();
        let ghost mut late: Seq<AnimationError> = Seq::empty();
        proof {
            lemma_frame_errors_kind(aged, results);
            lemma_ticked_all(start);
            lemma_alike_keeps(start, aged);
            assert(evolved(aged, first));
            assert forall|i: int| 0 <= i < start.len() implies untouched(
                aged,
                w,
                h,
                first,
                marks,
                i,
            ) by {
                assert(results[i] is Some <==> !dies(aged, i, w, h) && aged[i].callback is Some);
            }
        }
        if self.physical_count > 0 {
            let collisions = self.find_collisions(&deleted);
            proof {
                assert(named_pairs(first, collision_pairs(first, marks), collisions@));
                lemma_found_pairs_whole(first, marks, collisions@);
            }
            match self.collision_handlers(&collisions, &mut deleted, hooks) {
                Ok(mut more) => {
                    proof {
                        late = more@;
                        reactions = choose|reactions: Seq<
                            (Option<CallbackResult>, Option<CallbackResult>),
                        >|
                            handlers_outcome(
                                first,
                                marks,
                                w,
                                h,
                                collisions@,
                                reactions,
                                self.entities@,
                                deleted@,
                                more@,
                            );
                    }
                    errors.append(&mut more);
                },
                Err(fault) => {
                    // the pairs were found among these very entities: there is
                    // no fault, and the report will hold none
                    errors.push(fault);
                },
            }
            proof {
                lemma_evolved_trans(aged, first, self.entities@);
                assert forall|i: int| 0 <= i < start.len() implies untouched(
                    aged,
                    w,
                    h,
                    self.entities@,
                    deleted@,
                    i,
                ) by {
                    assert(untouched(aged, w, h, first, marks, i));
                    assert(same_identity(first[i], aged[i]));
                    if marks[i] {
                        lemma_marked_not_involved(first, marks, collisions@, i);
                        assert(self.entities@[i] == first[i]);
                        assert(deleted@[i] == marks[i]);
                    }
                    if first[i].coll_handler is None {
                        assert(self.entities@[i] == first[i]);
                        assert(deleted@[i] == marks[i]);
                    }
                }
            }
        }
        let ghost mid = self.entities@;
        let ghost last = deleted@;
        self.spread(&mut deleted);
        let ghost gone = deleted@;
        let removed = self.remove_deleted_entries(&deleted, hooks);
        let ghost rest = self.entities@;
        self.move_followers();
        let report = FrameReport { errors, removed };
        proof {
            lemma_spread_closed(mid, last);
            assert forall|i: int|
                0 <= i < start.len() && dies(aged, i, w, h) implies #[trigger] gone[i] && mid[i]
                == aged[i] by {
                assert(untouched(aged, w, h, mid, last, i));
            }
            assert forall|i: int|
                0 <= i < start.len() && !dies(aged, i, w, h) && aged[i].callback is None
                    && aged[i].coll_handler is None implies #[trigger] mid[i] == aged[i] by {
                assert(untouched(aged, w, h, mid, last, i));
            }
            assert forall|i: int|
                0 <= i < start.len() && !dies(aged, i, w, h) && aged[i].callback is None
                    && aged[i].coll_handler is None && aged[i].die_entity is None implies !(
            #[trigger] gone[i]) by {
                assert(untouched(aged, w, h, mid, last, i));
                lemma_unbound_unmarked(mid, last, i);
            }
            assert(frame_outcome(start, w, h, mid, gone, self.entities@, report.removed@));
            assert forall|k: int| 0 <= k < self.entities@.len() implies (
            #[trigger] self.entities@[k].die_entity matches Some(name) ==> has_name(
                self.entities@,
                name@,
            )) by {
                lemma_partner_stays(aged, w, h, mid, last, rest, self.entities@, k);
            }
            lemma_alike_keeps(start, aged);
            lemma_evolved_keeps(aged, first);
            assert(all_resolved(
                first,
                marks,
                w,
                h,
                if count_physical(start) > 0 {
                    pair_names(first, collision_pairs(first, marks))
                } else {
                    Seq::empty()
                },
                reactions,
            ) == (mid, last, late));
            assert(report.errors@ =~= frame_errors(aged, results) + late);
            assert(frame_exact(
                start,
                w,
                h,
                results,
                reactions,
                self.entities@,
                report.removed@,
                report.errors@,
            ));
            lemma_evolved_keeps(aged, mid);
            assert(evolved(rest, self.entities@));
            assert forall|i: int|
                0 <= i < start.len() && (#[trigger] start[i].die_frame matches Some(n) && n
                    <= 1) implies dies(aged, i, w, h) by {
                lemma_countdown_dies(start, i, w, h);
            }
            assert forall|i: int| 0 <= i < start.len() && dies(aged, i, w, h) implies !has_name(
                self.entities@,
                #[trigger] start[i].name@,
            ) by {
                assert(untouched(aged, w, h, mid, last, i));
                lemma_taken_names_gone(mid, gone, i);
                lemma_evolved_has_name(rest, self.entities@, start[i].name@);
                assert(same_identity(mid[i], aged[i]));
            }
        }
        report
    }
}

} // verus!
