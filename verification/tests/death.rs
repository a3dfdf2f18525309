use term_animation::{
    Animation, AnimationError, CallbackResult, Entity, Hooks, Position, StyledSprite,
};

/// Behaviour hooks by handle: 0 stays, 1 steps right, 2 asks for frame 7,
/// 3 dies, 4 goes where "lead" is seen plus 100.
#[derive(Default)]
struct Script {
    asked: Vec<String>,
    died: Vec<String>,
    seen_itself_at_death: bool,
    seen_at_death: Vec<usize>,
}

impl Hooks for Script {
    fn callback(&mut self, id: usize, entity: &Entity, anim: &Animation) -> CallbackResult {
        self.asked.push(entity.name.clone());
        match id {
            1 => CallbackResult { new_x: Some(entity.pos.x + 1), ..CallbackResult::default() },
            2 => CallbackResult { new_frame: Some(7), new_z: Some(5), ..CallbackResult::default() },
            3 => CallbackResult { die: true, new_y: Some(1), ..CallbackResult::default() },
            4 => {
                let lead = anim.index_of(&"lead".to_string()).unwrap();
                CallbackResult {
                    new_x: Some(anim.entities[lead].pos.x + 100),
                    ..CallbackResult::default()
                }
            },
            _ => CallbackResult::default(),
        }
    }

    fn collision(
        &mut self,
        _id: usize,
        _entity: &Entity,
        _other: &Entity,
        _anim: &Animation,
    ) -> CallbackResult {
        CallbackResult::default()
    }

    fn death(&mut self, _id: usize, entity: &Entity, anim: &Animation) {
        self.died.push(entity.name.clone());
        if anim.index_of(&entity.name).is_some() {
            self.seen_itself_at_death = true;
        }
        self.seen_at_death.push(anim.entities.len());
    }
}

fn named(name: &str) -> Entity {
    Entity { name: name.to_string(), ..Entity::default() }
}

fn names(entities: &Vec<Entity>) -> Vec<String> {
    entities.iter().map(|e| e.name.clone()).collect()
}

#[test]
fn countdown_of_one_dies_in_one_frame() {
    let mut anim = Animation::new(Some((80, 24)));
    let mut a = named("a");
    a.die_frame = Some(1);
    a.death_callback = Some(0);
    anim.add_entity(a);
    anim.add_entity(named("b"));
    let mut script = Script::default();
    let report = anim.animate(&mut script);
    assert_eq!(names(&anim.entities), vec!["b"]);
    assert_eq!(names(&report.removed), vec!["a"]);
    assert_eq!(report.removed[0].die_frame, Some(0));
    assert!(report.errors.is_empty());
    assert_eq!(script.died, vec!["a"]);
    assert!(!script.seen_itself_at_death);
    let report = anim.animate(&mut script);
    assert!(report.removed.is_empty());
    assert_eq!(script.died, vec!["a"]);
    assert_eq!(names(&anim.entities), vec!["b"]);
}

#[test]
fn countdown_of_two_lives_one_frame_longer() {
    let mut anim = Animation::new(Some((80, 24)));
    let mut a = named("a");
    a.die_frame = Some(2);
    anim.add_entity(a);
    let mut script = Script::default();
    let report = anim.animate(&mut script);
    assert!(report.removed.is_empty());
    assert_eq!(anim.entities[0].die_frame, Some(1));
    let report = anim.animate(&mut script);
    assert_eq!(names(&report.removed), vec!["a"]);
    assert!(anim.entities.is_empty());
    // no death hook, nothing was called
    assert!(script.died.is_empty());
}

#[test]
fn countdown_that_has_run_out_dies() {
    let mut anim = Animation::new(Some((80, 24)));
    for (name, left) in [("zero", 0), ("minus", -5), ("least", i32::MIN), ("three", 3)] {
        let mut e = named(name);
        e.die_frame = Some(left);
        anim.add_entity(e);
    }
    let report = anim.animate(&mut Script::default());
    assert_eq!(names(&report.removed), vec!["zero", "minus", "least"]);
    assert_eq!(report.removed[2].die_frame, Some(i32::MIN));
    assert_eq!(names(&anim.entities), vec!["three"]);
    assert_eq!(anim.entities[0].die_frame, Some(2));
}

fn bound_pair(first_is_leader: bool) -> Animation {
    let mut anim = Animation::new(Some((80, 24)));
    let mut a = named("A");
    a.die_frame = Some(1);
    let mut b = named("B");
    b.die_entity = Some("A".to_string());
    if first_is_leader {
        anim.add_entity(a);
        anim.add_entity(b);
    } else {
        anim.add_entity(b);
        anim.add_entity(a);
    }
    anim.add_entity(named("C"));
    anim
}

#[test]
fn bound_entity_dies_in_the_same_frame() {
    let mut anim = bound_pair(true);
    let report = anim.animate(&mut Script::default());
    assert_eq!(names(&report.removed), vec!["A", "B"]);
    assert_eq!(names(&anim.entities), vec!["C"]);
}

#[test]
fn bound_entity_dies_in_the_same_frame_in_the_other_order() {
    let mut anim = bound_pair(false);
    let report = anim.animate(&mut Script::default());
    assert_eq!(names(&report.removed), vec!["B", "A"]);
    assert_eq!(names(&anim.entities), vec!["C"]);
}

#[test]
fn a_chain_of_bonds_dies_together() {
    let mut anim = Animation::new(Some((80, 24)));
    let mut d = named("d");
    d.die_entity = Some("c".to_string());
    let mut c = named("c");
    c.die_entity = Some("b".to_string());
    let mut b = named("b");
    b.die_entity = Some("a".to_string());
    let mut a = named("a");
    a.die_frame = Some(1);
    let mut e = named("e");
    e.die_entity = Some("f".to_string());
    anim.add_entity(d);
    anim.add_entity(c);
    anim.add_entity(e);
    anim.add_entity(b);
    anim.add_entity(a);
    anim.add_entity(named("f"));
    assert_eq!(anim.doomed(), vec![false; 6]);
    anim.tick();
    assert_eq!(anim.doomed(), vec![true, true, false, true, true, false]);
    let report = anim.animate(&mut Script::default());
    // the countdown had been reduced before; it is at zero now
    assert_eq!(names(&report.removed), vec!["d", "c", "b", "a"]);
    assert_eq!(names(&anim.entities), vec!["e", "f"]);
}

#[test]
fn a_circle_of_bonds_lives() {
    let mut anim = Animation::new(Some((80, 24)));
    let mut x = named("x");
    x.die_entity = Some("y".to_string());
    let mut y = named("y");
    y.die_entity = Some("x".to_string());
    let mut z = named("z");
    z.die_entity = Some("z".to_string());
    anim.add_entity(x);
    anim.add_entity(y);
    anim.add_entity(z);
    let report = anim.animate(&mut Script::default());
    assert!(report.removed.is_empty());
    assert_eq!(anim.entities.len(), 3);
}

#[test]
fn an_entity_bound_to_nobody_dies() {
    let mut anim = Animation::new(Some((80, 24)));
    let mut orphan = named("orphan");
    orphan.die_entity = Some("gone".to_string());
    orphan.death_callback = Some(9);
    anim.add_entity(orphan);
    let mut script = Script::default();
    let report = anim.animate(&mut script);
    assert_eq!(names(&report.removed), vec!["orphan"]);
    assert_eq!(script.died, vec!["orphan"]);
    assert_eq!(script.seen_at_death, vec![0]);
}

#[test]
fn a_bound_entity_whose_partner_dies_next_frame_follows_it() {
    let mut anim = Animation::new(Some((80, 24)));
    let mut a = named("a");
    a.die_frame = Some(2);
    let mut b = named("b");
    b.die_entity = Some("a".to_string());
    anim.add_entity(b);
    anim.add_entity(a);
    assert!(anim.animate(&mut Script::default()).removed.is_empty());
    assert_eq!(names(&anim.animate(&mut Script::default()).removed), vec!["b", "a"]);
}

fn offscreen_at(x: i16, y: i16) -> bool {
    let mut anim = Animation::new(Some((80, 24)));
    let mut e = named("e");
    e.die_offscreen = true;
    e.width = 3;
    e.height = 2;
    e.pos = Position { x, y, z: 0 };
    anim.add_entity(e);
    anim.doomed()[0]
}

#[test]
fn off_screen() {
    assert!(!offscreen_at(0, 0));
    assert!(!offscreen_at(79, 23));
    assert!(offscreen_at(80, 0));
    assert!(offscreen_at(0, 24));
    assert!(!offscreen_at(-3, 0));
    assert!(offscreen_at(-4, 0));
    assert!(!offscreen_at(0, -2));
    assert!(offscreen_at(0, -3));
    assert!(offscreen_at(i16::MAX, i16::MAX));
    assert!(offscreen_at(i16::MIN, 0));
}

#[test]
fn off_screen_is_for_those_who_ask() {
    let mut anim = Animation::new(Some((80, 24)));
    let mut e = named("e");
    e.pos = Position { x: 200, y: 200, z: 0 };
    anim.add_entity(e);
    assert_eq!(anim.doomed(), vec![false]);
    assert!(anim.animate(&mut Script::default()).removed.is_empty());
}

#[test]
fn the_dying_are_not_asked() {
    let mut anim = Animation::new(Some((80, 24)));
    let mut a = named("a");
    a.die_frame = Some(1);
    a.callback = Some(1);
    let mut b = named("b");
    b.callback = Some(1);
    anim.add_entity(a);
    anim.add_entity(b);
    anim.add_entity(named("c"));
    let mut script = Script::default();
    let report = anim.animate(&mut script);
    assert_eq!(script.asked, vec!["b"]);
    assert_eq!(report.removed[0].pos.x, 0);
    assert_eq!(anim.entities[0].pos.x, 1);
    assert_eq!(anim.entities[1].pos.x, 0);
}

#[test]
fn a_hook_moves_its_entity() {
    let mut anim = Animation::new(Some((80, 24)));
    let mut a = named("a");
    a.callback = Some(1);
    a.wrap = true;
    a.pos.x = 78;
    anim.add_entity(a);
    let mut script = Script::default();
    anim.animate(&mut script);
    assert_eq!(anim.entities[0].pos.x, 79);
    anim.animate(&mut script);
    assert_eq!(anim.entities[0].pos.x, 0);
    anim.animate(&mut script);
    assert_eq!(anim.entities[0].pos.x, 1);
    assert_eq!(script.asked, vec!["a", "a", "a"]);
}

fn seen_by_the_reader(reader_first: bool) -> i16 {
    let mut anim = Animation::new(Some((80, 24)));
    let mut lead = named("lead");
    lead.callback = Some(1);
    lead.pos.x = 10;
    let mut reader = named("reader");
    reader.callback = Some(4);
    if reader_first {
        anim.add_entity(reader);
        anim.add_entity(lead);
    } else {
        anim.add_entity(lead);
        anim.add_entity(reader);
    }
    anim.animate(&mut Script::default());
    let lead = anim.index_of(&"lead".to_string()).unwrap();
    assert_eq!(anim.entities[lead].pos.x, 11);
    let reader = anim.index_of(&"reader".to_string()).unwrap();
    anim.entities[reader].pos.x
}

#[test]
fn hooks_see_the_entities_as_they_were() {
    assert_eq!(seen_by_the_reader(true), 110);
    assert_eq!(seen_by_the_reader(false), 110);
}

#[test]
fn a_bad_frame_is_reported_and_the_frame_goes_on() {
    let mut anim = Animation::new(Some((80, 24)));
    let mut a = named("a");
    a.callback = Some(2);
    a.frames.push(StyledSprite::from_str_simple("x"));
    let mut b = named("b");
    b.callback = Some(1);
    let mut c = named("c");
    c.callback = Some(2);
    anim.add_entity(a);
    anim.add_entity(b);
    anim.add_entity(c);
    let report = anim.animate(&mut Script::default());
    assert_eq!(
        report.errors,
        vec![
            AnimationError::InvalidFrame { entity: "a".to_string(), frame: 7 },
            AnimationError::InvalidFrame { entity: "c".to_string(), frame: 7 },
        ]
    );
    assert!(report.removed.is_empty());
    assert_eq!(anim.entities[0].current_frame, 0);
    assert_eq!(anim.entities[0].pos.z, 5);
    assert_eq!(anim.entities[1].pos.x, 1);
    assert_eq!(anim.entities[2].pos.z, 5);
}

#[test]
fn a_hook_can_mark_its_entity() {
    let mut anim = Animation::new(Some((80, 24)));
    let mut a = named("a");
    a.callback = Some(3);
    a.death_callback = Some(0);
    let mut b = named("b");
    b.die_entity = Some("a".to_string());
    anim.add_entity(a);
    anim.add_entity(b);
    anim.add_entity(named("c"));
    let mut script = Script::default();
    let report = anim.animate(&mut script);
    // b is bound to a and goes with it
    assert_eq!(names(&report.removed), vec!["a", "b"]);
    assert_eq!(report.removed[0].pos.y, 1);
    assert_eq!(script.died, vec!["a"]);
    assert_eq!(script.seen_at_death, vec![1]);
    assert_eq!(names(&anim.entities), vec!["c"]);
}

#[test]
fn marks_spread_along_the_bonds() {
    let mut anim = Animation::new(Some((80, 24)));
    let bound = [
        ("a", None),
        ("b", Some("a")),
        ("c", Some("b")),
        ("d", None),
        ("e", Some("d")),
        ("f", Some("f")),
    ];
    for (name, partner) in bound {
        let mut e = named(name);
        e.die_entity = partner.map(|p: &str| p.to_string());
        anim.add_entity(e);
    }
    assert_eq!(anim.bonds(), vec![None, Some(0), Some(1), None, Some(3), Some(5)]);
    let mut marks = vec![false; 6];
    anim.spread(&mut marks);
    assert_eq!(marks, vec![false; 6]);
    let mut marks = vec![true, false, false, false, false, false];
    anim.spread(&mut marks);
    assert_eq!(marks, vec![true, true, true, false, false, false]);
    let mut marks = vec![false, true, false, false, true, false];
    anim.spread(&mut marks);
    assert_eq!(marks, vec![false, true, true, false, true, false]);
    let mut marks = vec![false, false, false, true, false, true];
    anim.spread(&mut marks);
    assert_eq!(marks, vec![false, false, false, true, true, true]);
}

#[test]
fn nobody_outlives_its_partner() {
    let mut anim = Animation::new(Some((80, 24)));
    let mut a = named("a");
    a.callback = Some(3);
    let mut b = named("b");
    b.die_entity = Some("c".to_string());
    let mut c = named("c");
    c.die_entity = Some("a".to_string());
    let mut d = named("d");
    d.die_entity = Some("e".to_string());
    anim.add_entity(b);
    anim.add_entity(c);
    anim.add_entity(a);
    anim.add_entity(d);
    anim.add_entity(named("e"));
    let report = anim.animate(&mut Script::default());
    assert_eq!(names(&report.removed), vec!["b", "c", "a"]);
    assert_eq!(names(&anim.entities), vec!["d", "e"]);
    for e in anim.entities.iter() {
        if let Some(partner) = &e.die_entity {
            assert!(anim.index_of(partner).is_some());
        }
    }
}

#[test]
fn the_stages_of_do_callbacks() {
    let mut anim = Animation::new(Some((80, 24)));
    let mut a = named("a");
    a.die_frame = Some(1);
    a.callback = Some(1);
    let mut b = named("b");
    b.callback = Some(3);
    let mut c = named("c");
    c.callback = Some(2);
    anim.add_entity(a);
    anim.add_entity(b);
    anim.add_entity(c);
    anim.add_entity(named("d"));
    let mut script = Script::default();
    let (deleted, errors) = anim.do_callbacks(&mut script);
    assert_eq!(deleted, vec![true, true, false, false]);
    assert_eq!(errors, vec![AnimationError::InvalidFrame { entity: "c".to_string(), frame: 7 }]);
    assert_eq!(script.asked, vec!["b", "c"]);
    assert_eq!(anim.entities.len(), 4);
    assert_eq!(anim.entities[0].die_frame, Some(0));
    assert_eq!(anim.entities[0].pos.x, 0);
    assert_eq!(anim.entities[1].pos.y, 1);
}

#[test]
fn apply_callbacks_for_given_results() {
    let mut anim = Animation::new(Some((80, 24)));
    let mut a = named("a");
    a.wrap = true;
    anim.add_entity(a);
    anim.add_entity(named("b"));
    anim.add_entity(named("c"));
    let results = vec![
        Some(CallbackResult { new_x: Some(-1), new_y: Some(24), ..CallbackResult::default() }),
        None,
        Some(CallbackResult { new_frame: Some(0), die: true, ..CallbackResult::default() }),
    ];
    let mut deleted = vec![false, true, false];
    let errors = anim.apply_callbacks(&results, &mut deleted);
    assert_eq!(errors, vec![AnimationError::InvalidFrame { entity: "c".to_string(), frame: 0 }]);
    assert_eq!(deleted, vec![false, true, true]);
    assert_eq!(anim.entities[0].pos, Position { x: 79, y: 0, z: 0 });
    assert_eq!(anim.entities[1].pos, Position { x: 0, y: 0, z: 0 });
}

#[test]
fn death_hooks_run_once_all_the_dead_are_out() {
    let mut anim = Animation::new(Some((80, 24)));
    for name in ["a", "b", "c", "d"] {
        let mut e = named(name);
        e.death_callback = Some(0);
        e.physical = name != "b";
        anim.add_entity(e);
    }
    let mut script = Script::default();
    let removed = anim.remove_deleted_entries(&vec![true, false, true, true], &mut script);
    assert_eq!(names(&removed), vec!["a", "c", "d"]);
    assert_eq!(names(&anim.entities), vec!["b"]);
    assert_eq!(anim.physical_count, 0);
    assert_eq!(script.died, vec!["a", "c", "d"]);
    assert_eq!(script.seen_at_death, vec![1, 1, 1]);
    assert!(!script.seen_itself_at_death);
    assert!(anim.well_formed());
}

#[test]
fn take_deleted_keeps_the_order() {
    let mut anim = Animation::new(Some((80, 24)));
    for name in ["a", "b", "c", "d", "e"] {
        let mut e = named(name);
        e.physical = true;
        anim.add_entity(e);
    }
    let removed = anim.take_deleted(&vec![false, true, false, true, false]);
    assert_eq!(names(&removed), vec!["b", "d"]);
    assert_eq!(names(&anim.entities), vec!["a", "c", "e"]);
    assert_eq!(anim.physical_count, 3);
    let removed = anim.take_deleted(&vec![false, false, false]);
    assert!(removed.is_empty());
    assert_eq!(anim.entities.len(), 3);
    let removed = anim.take_deleted(&vec![true, true, true]);
    assert_eq!(names(&removed), vec!["a", "c", "e"]);
    assert!(anim.entities.is_empty());
    assert_eq!(anim.physical_count, 0);
}

#[test]
fn collect_callbacks_asks_the_unmarked_that_have_a_hook() {
    let mut anim = Animation::new(Some((80, 24)));
    for (name, hook) in [("a", Some(1)), ("b", None), ("c", Some(1)), ("d", Some(3))] {
        let mut e = named(name);
        e.callback = hook;
        e.pos.x = 7;
        anim.add_entity(e);
    }
    let mut script = Script::default();
    let results = anim.collect_callbacks(&vec![false, false, true, false], &mut script);
    assert_eq!(script.asked, vec!["a", "d"]);
    assert_eq!(
        results,
        vec![
            Some(CallbackResult { new_x: Some(8), ..CallbackResult::default() }),
            None,
            None,
            Some(CallbackResult { die: true, new_y: Some(1), ..CallbackResult::default() }),
        ]
    );
    // nothing has been applied yet
    assert_eq!(anim.entities[0].pos.x, 7);
}
