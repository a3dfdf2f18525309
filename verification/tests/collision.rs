use std::collections::HashSet;
use term_animation::{Animation, AnimationError, CallbackResult, Entity, Hooks, Position};

/// Collision hooks by handle: 0 counts, 1 steps down a layer, 2 dies,
/// 3 asks for frame 4.
#[derive(Default)]
struct Counter {
    calls: usize,
    met: Vec<(String, String)>,
    layers_seen: Vec<i16>,
}

impl Hooks for Counter {
    fn callback(&mut self, _id: usize, _entity: &Entity, _anim: &Animation) -> CallbackResult {
        CallbackResult::default()
    }

    fn collision(
        &mut self,
        id: usize,
        entity: &Entity,
        other: &Entity,
        _anim: &Animation,
    ) -> CallbackResult {
        self.calls += 1;
        self.met.push((entity.name.clone(), other.name.clone()));
        self.layers_seen.push(other.pos.z);
        match id {
            1 => CallbackResult { new_z: Some(entity.pos.z - 1), ..CallbackResult::default() },
            2 => CallbackResult { die: true, ..CallbackResult::default() },
            3 => CallbackResult { new_frame: Some(4), ..CallbackResult::default() },
            _ => CallbackResult::default(),
        }
    }

    fn death(&mut self, _id: usize, _entity: &Entity, _anim: &Animation) {
    }
}

fn solid(name: &str, x: i16, y: i16) -> Entity {
    Entity {
        name: name.to_string(),
        physical: true,
        width: 2,
        height: 2,
        depth: 1,
        pos: Position { x, y, z: 0 },
        ..Entity::default()
    }
}

fn pair(a: &str, b: &str) -> (String, String) {
    (a.to_string(), b.to_string())
}

#[test]
fn all_colliding_entities_make_all_pairs() {
    for n in 0..7usize {
        let mut anim = Animation::new(Some((80, 24)));
        for i in 0..n {
            anim.add_entity(solid(&format!("e{}", i), 0, 0));
        }
        let pairs = anim.find_collisions(&vec![false; n]);
        assert_eq!(pairs.len() * 2, n * n.saturating_sub(1));
        let mut seen = HashSet::new();
        for (a, b) in pairs.iter() {
            assert_ne!(a, b);
            assert!(!seen.contains(&(b.clone(), a.clone())));
            assert!(seen.insert((a.clone(), b.clone())));
        }
    }
}

#[test]
fn pairs_come_in_the_order_of_the_entities() {
    let mut anim = Animation::new(Some((80, 24)));
    anim.add_entity(solid("a", 0, 0));
    anim.add_entity(solid("b", 1, 1));
    anim.add_entity(solid("c", 2, 2));
    anim.add_entity(solid("d", 10, 10));
    assert_eq!(anim.find_collisions(&vec![false; 4]), vec![pair("a", "b"), pair("b", "c")]);
}

#[test]
fn what_is_not_physical_is_in_no_pair() {
    let mut anim = Animation::new(Some((80, 24)));
    anim.add_entity(solid("a", 0, 0));
    let mut ghost = solid("ghost", 0, 0);
    ghost.physical = false;
    anim.add_entity(ghost);
    anim.add_entity(solid("b", 0, 0));
    let mut other = solid("shade", 1, 1);
    other.physical = false;
    anim.add_entity(other);
    assert_eq!(anim.find_collisions(&vec![false; 4]), vec![pair("a", "b")]);
}

#[test]
fn what_is_marked_is_in_no_pair() {
    let mut anim = Animation::new(Some((80, 24)));
    anim.add_entity(solid("a", 0, 0));
    anim.add_entity(solid("b", 0, 0));
    anim.add_entity(solid("c", 0, 0));
    assert_eq!(anim.find_collisions(&vec![false, true, false]), vec![pair("a", "c")]);
    assert_eq!(anim.find_collisions(&vec![true, false, false]), vec![pair("b", "c")]);
    assert!(anim.find_collisions(&vec![true, true, false]).is_empty());
}

#[test]
fn entities_apart_do_not_collide() {
    let mut anim = Animation::new(Some((80, 24)));
    anim.add_entity(solid("a", 0, 0));
    anim.add_entity(solid("b", 2, 0));
    anim.add_entity(solid("c", 0, 2));
    let mut d = solid("d", 0, 0);
    d.pos.z = 1;
    anim.add_entity(d);
    assert!(anim.find_collisions(&vec![false; 4]).is_empty());
}

#[test]
fn each_member_of_a_pair_is_asked_once() {
    let mut anim = Animation::new(Some((80, 24)));
    let mut a = solid("a", 0, 0);
    a.coll_handler = Some(0);
    let mut b = solid("b", 1, 1);
    b.coll_handler = Some(0);
    anim.add_entity(a);
    anim.add_entity(b);
    let mut counter = Counter::default();
    let report = anim.animate(&mut counter);
    assert_eq!(counter.calls, 2);
    assert_eq!(counter.met, vec![pair("a", "b"), pair("b", "a")]);
    assert!(report.removed.is_empty());
    assert!(report.errors.is_empty());
    anim.animate(&mut counter);
    assert_eq!(counter.calls, 4);
}

#[test]
fn only_who_has_a_hook_is_asked() {
    let mut anim = Animation::new(Some((80, 24)));
    let mut a = solid("a", 0, 0);
    a.coll_handler = Some(0);
    anim.add_entity(a);
    anim.add_entity(solid("b", 0, 0));
    anim.add_entity(solid("c", 0, 0));
    let mut counter = Counter::default();
    anim.animate(&mut counter);
    assert_eq!(counter.met, vec![pair("a", "b"), pair("a", "c")]);
}

#[test]
fn without_physical_entities_nobody_is_asked() {
    let mut anim = Animation::new(Some((80, 24)));
    for name in ["a", "b"] {
        let mut e = solid(name, 0, 0);
        e.physical = false;
        e.coll_handler = Some(0);
        anim.add_entity(e);
    }
    let mut counter = Counter::default();
    anim.animate(&mut counter);
    assert_eq!(counter.calls, 0);
}

#[test]
fn the_dying_do_not_collide() {
    let mut anim = Animation::new(Some((80, 24)));
    let mut a = solid("a", 0, 0);
    a.coll_handler = Some(0);
    a.die_frame = Some(1);
    let mut b = solid("b", 0, 0);
    b.coll_handler = Some(0);
    anim.add_entity(a);
    anim.add_entity(b);
    let mut counter = Counter::default();
    let report = anim.animate(&mut counter);
    assert_eq!(counter.calls, 0);
    assert_eq!(report.removed.len(), 1);
    assert_eq!(anim.physical_count, 1);
}

#[test]
fn a_collision_hook_can_mark_its_entity() {
    let mut anim = Animation::new(Some((80, 24)));
    let mut fish = solid("fish", 0, 0);
    fish.coll_handler = Some(2);
    let mut shark = solid("shark", 1, 1);
    shark.coll_handler = Some(0);
    anim.add_entity(fish);
    anim.add_entity(shark);
    anim.add_entity(solid("rock", 1, 0));
    let mut counter = Counter::default();
    let report = anim.animate(&mut counter);
    // the fish is still there for the pairs that follow its death sentence
    assert_eq!(
        counter.met,
        vec![
            pair("fish", "shark"),
            pair("shark", "fish"),
            pair("fish", "rock"),
            pair("shark", "rock"),
        ]
    );
    assert_eq!(report.removed.len(), 1);
    assert_eq!(report.removed[0].name, "fish");
    assert_eq!(anim.entities.len(), 2);
    assert_eq!(anim.physical_count, 2);
}

#[test]
fn who_is_bound_to_a_victim_goes_with_it() {
    let mut anim = Animation::new(Some((80, 24)));
    let mut fish = solid("fish", 0, 0);
    fish.coll_handler = Some(2);
    let mut pilot = solid("pilot", 40, 10);
    pilot.die_entity = Some("fish".to_string());
    anim.add_entity(pilot);
    anim.add_entity(fish);
    anim.add_entity(solid("shark", 1, 1));
    let report = anim.animate(&mut Counter::default());
    assert_eq!(report.removed.len(), 2);
    assert_eq!(report.removed[0].name, "pilot");
    assert_eq!(report.removed[1].name, "fish");
    assert_eq!(anim.entities.len(), 1);
    assert_eq!(anim.physical_count, 1);
}

#[test]
fn the_second_hook_sees_what_the_first_did() {
    let mut anim = Animation::new(Some((80, 24)));
    let mut a = solid("a", 0, 0);
    a.coll_handler = Some(1);
    let mut b = solid("b", 0, 0);
    b.coll_handler = Some(1);
    anim.add_entity(a);
    anim.add_entity(b);
    let mut counter = Counter::default();
    anim.animate(&mut counter);
    assert_eq!(counter.layers_seen, vec![0, -1]);
    assert_eq!(anim.entities[0].pos.z, -1);
    assert_eq!(anim.entities[1].pos.z, -1);
}

#[test]
fn a_bad_frame_from_a_collision_hook_is_reported() {
    let mut anim = Animation::new(Some((80, 24)));
    let mut a = solid("a", 0, 0);
    a.coll_handler = Some(3);
    anim.add_entity(a);
    anim.add_entity(solid("b", 0, 0));
    let report = anim.animate(&mut Counter::default());
    assert_eq!(
        report.errors,
        vec![AnimationError::InvalidFrame { entity: "a".to_string(), frame: 4 }]
    );
    assert_eq!(anim.entities.len(), 2);
}

#[test]
fn a_pair_of_strangers_is_a_fault() {
    let mut anim = Animation::new(Some((80, 24)));
    let mut a = solid("a", 0, 0);
    a.coll_handler = Some(1);
    let mut b = solid("b", 0, 0);
    b.coll_handler = Some(2);
    anim.add_entity(a);
    anim.add_entity(b);
    let mut counter = Counter::default();
    let mut deleted = vec![false, false];
    let collisions = vec![pair("a", "b"), pair("x", "y"), pair("p", "q")];
    let result = anim.collision_handlers(&collisions, &mut deleted, &mut counter);
    assert_eq!(
        result,
        Err(AnimationError::CollisionConsistencyFault {
            first: "x".to_string(),
            second: "y".to_string(),
        })
    );
    assert_eq!(counter.calls, 0);
    assert_eq!(deleted, vec![false, false]);
    assert_eq!(anim.entities[0].pos.z, 0);
}

#[test]
fn a_pair_with_one_stranger_is_passed_over() {
    let mut anim = Animation::new(Some((80, 24)));
    let mut a = solid("a", 0, 0);
    a.coll_handler = Some(1);
    let mut b = solid("b", 0, 0);
    b.coll_handler = Some(2);
    anim.add_entity(a);
    anim.add_entity(b);
    let mut counter = Counter::default();
    let mut deleted = vec![false, false];
    let collisions = vec![pair("a", "x"), pair("y", "b"), pair("b", "a")];
    let result = anim.collision_handlers(&collisions, &mut deleted, &mut counter);
    assert_eq!(result, Ok(vec![]));
    assert_eq!(counter.met, vec![pair("b", "a"), pair("a", "b")]);
    assert_eq!(deleted, vec![false, true]);
    assert_eq!(anim.entities[0].pos.z, -1);
    assert_eq!(anim.entities.len(), 2);
}

#[test]
fn apply_result_at_an_index() {
    let mut anim = Animation::new(Some((10, 10)));
    let mut a = solid("a", 0, 0);
    a.wrap = true;
    anim.add_entity(solid("z", 0, 0));
    anim.add_entity(a);
    let mut deleted = vec![true, false];
    let result =
        CallbackResult { new_x: Some(12), new_frame: Some(1), ..CallbackResult::default() };
    assert_eq!(
        anim.apply_result(1, &result, &mut deleted),
        Some(AnimationError::InvalidFrame { entity: "a".to_string(), frame: 1 })
    );
    assert_eq!(anim.entities[1].pos.x, 2);
    assert_eq!(deleted, vec![true, false]);
    let result = CallbackResult { die: true, ..CallbackResult::default() };
    assert_eq!(anim.apply_result(1, &result, &mut deleted), None);
    assert_eq!(deleted, vec![true, true]);
    assert_eq!(anim.apply_result(0, &CallbackResult::default(), &mut deleted), None);
    assert_eq!(deleted, vec![true, true]);
    assert_eq!(anim.entities[0].pos, Position { x: 0, y: 0, z: 0 });
}

#[test]
fn resolve_pair_asks_the_first_member_first() {
    let mut anim = Animation::new(Some((80, 24)));
    let mut a = solid("a", 0, 0);
    a.coll_handler = Some(3);
    let mut b = solid("b", 5, 5);
    b.coll_handler = Some(2);
    anim.add_entity(solid("c", 0, 0));
    anim.add_entity(a);
    anim.add_entity(b);
    let mut counter = Counter::default();
    let mut deleted = vec![false; 3];
    // the members need not intersect: the pair is taken as given
    let errors = anim.resolve_pair(2, 1, &mut deleted, &mut counter);
    assert_eq!(counter.met, vec![pair("b", "a"), pair("a", "b")]);
    assert_eq!(errors, vec![AnimationError::InvalidFrame { entity: "a".to_string(), frame: 4 }]);
    assert_eq!(deleted, vec![false, false, true]);
    let errors = anim.resolve_named(&pair("c", "b"), &mut deleted, &mut counter);
    assert!(errors.is_empty());
    assert_eq!(counter.calls, 3);
    let errors = anim.resolve_named(&pair("c", "nobody"), &mut deleted, &mut counter);
    assert!(errors.is_empty());
    assert_eq!(counter.calls, 3);
    assert_eq!(deleted, vec![false, false, true]);
}

#[test]
fn a_pair_of_one_entity_with_itself() {
    let mut anim = Animation::new(Some((80, 24)));
    let mut a = solid("a", 0, 0);
    a.coll_handler = Some(1);
    anim.add_entity(a);
    let mut counter = Counter::default();
    let mut deleted = vec![false];
    let result = anim.collision_handlers(&vec![pair("a", "a")], &mut deleted, &mut counter);
    assert_eq!(result, Ok(vec![]));
    assert_eq!(counter.layers_seen, vec![0, -1]);
    assert_eq!(anim.entities[0].pos.z, -2);
}
