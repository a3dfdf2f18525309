use term_animation::entity::place;
use term_animation::{AnimationError, CallbackResult, Entity, FollowOffset, Position, StyledSprite};

fn wrapping() -> Entity {
    Entity { wrap: true, ..Entity::default() }
}

#[test]
fn set_x_wraps_onto_the_canvas() {
    let mut entity = wrapping();
    entity.set_x(80, 80);
    assert_eq!(entity.pos.x, 0);
    entity.set_x(-1, 80);
    assert_eq!(entity.pos.x, 79);
    entity.set_x(79, 80);
    assert_eq!(entity.pos.x, 79);
    entity.set_x(0, 80);
    assert_eq!(entity.pos.x, 0);
    entity.set_x(163, 80);
    assert_eq!(entity.pos.x, 3);
    entity.set_x(-81, 80);
    assert_eq!(entity.pos.x, 79);
    entity.set_x(-80, 80);
    assert_eq!(entity.pos.x, 0);
    entity.set_x(i16::MIN, 80);
    assert_eq!(entity.pos.x, 32);
    assert_eq!(entity.pos.y, 0);
    assert_eq!(entity.pos.z, 0);
}

#[test]
fn set_y_wraps_onto_the_canvas() {
    let mut entity = wrapping();
    entity.set_y(24, 24);
    assert_eq!(entity.pos.y, 0);
    entity.set_y(-1, 24);
    assert_eq!(entity.pos.y, 23);
    entity.set_y(50, 24);
    assert_eq!(entity.pos.y, 2);
    assert_eq!(entity.pos.x, 0);
}

#[test]
fn setters_without_wrap_store_what_they_get() {
    let mut entity = Entity::default();
    entity.set_x(80, 80);
    assert_eq!(entity.pos.x, 80);
    entity.set_x(-1, 80);
    assert_eq!(entity.pos.x, -1);
    entity.set_y(i16::MAX, 24);
    assert_eq!(entity.pos.y, i16::MAX);
    entity.set_z(-7);
    assert_eq!(entity.pos, Position { x: -1, y: i16::MAX, z: -7 });
}

#[test]
fn a_canvas_without_cells_does_not_wrap() {
    let mut entity = wrapping();
    entity.set_x(5, 0);
    assert_eq!(entity.pos.x, 5);
    entity.set_x(-5, -3);
    assert_eq!(entity.pos.x, -5);
    entity.set_y(7, 0);
    assert_eq!(entity.pos.y, 7);
}

#[test]
fn set_z_has_no_bound() {
    let mut entity = wrapping();
    entity.set_z(i16::MAX);
    assert_eq!(entity.pos.z, i16::MAX);
    entity.set_z(i16::MIN);
    assert_eq!(entity.pos.z, i16::MIN);
}

#[test]
fn place_values() {
    assert_eq!(place(80, true, 80), 0);
    assert_eq!(place(-1, true, 80), 79);
    assert_eq!(place(70000, true, 80), 0);
    assert_eq!(place(-70001, true, 80), 79);
    assert_eq!(place(70000, false, 80), i16::MAX);
    assert_eq!(place(-70000, false, 80), i16::MIN);
    assert_eq!(place(70000, true, 0), i16::MAX);
    assert_eq!(place(12, false, 5), 12);
    assert_eq!(place(4, true, 5), 4);
}

fn three_frames() -> Entity {
    let mut entity = Entity { name: "bird".to_string(), ..Entity::default() };
    entity.frames.push(StyledSprite::from_str_simple("a"));
    entity.frames.push(StyledSprite::from_str_simple("b"));
    entity.frames.push(StyledSprite::from_str_simple("c"));
    entity
}

#[test]
fn set_frame_within_the_pictures() {
    let mut entity = three_frames();
    assert_eq!(entity.set_frame(2), Ok(()));
    assert_eq!(entity.current_frame, 2);
    assert_eq!(entity.set_frame(0), Ok(()));
    assert_eq!(entity.current_frame, 0);
}

#[test]
fn set_frame_beyond_the_pictures() {
    let mut entity = three_frames();
    assert_eq!(entity.set_frame(1), Ok(()));
    assert_eq!(
        entity.set_frame(3),
        Err(AnimationError::InvalidFrame { entity: "bird".to_string(), frame: 3 })
    );
    assert_eq!(entity.current_frame, 1);
    assert_eq!(
        entity.set_frame(usize::MAX),
        Err(AnimationError::InvalidFrame { entity: "bird".to_string(), frame: usize::MAX })
    );
    assert_eq!(entity.current_frame, 1);
}

#[test]
fn set_frame_without_pictures() {
    let mut entity = Entity::default();
    assert_eq!(
        entity.set_frame(0),
        Err(AnimationError::InvalidFrame { entity: String::new(), frame: 0 })
    );
    assert_eq!(entity.current_frame, 0);
}

#[test]
fn apply_sets_what_is_asked_for() {
    let mut entity = three_frames();
    entity.wrap = true;
    entity.pos = Position { x: 1, y: 2, z: 3 };
    let result = CallbackResult {
        new_x: Some(85),
        new_y: None,
        new_z: Some(9),
        new_frame: Some(1),
        die: false,
    };
    assert_eq!(entity.apply(&result, 80, 24), Ok(()));
    assert_eq!(entity.pos, Position { x: 5, y: 2, z: 9 });
    assert_eq!(entity.current_frame, 1);
    assert_eq!(entity.apply(&CallbackResult::default(), 80, 24), Ok(()));
    assert_eq!(entity.pos, Position { x: 5, y: 2, z: 9 });
    assert_eq!(entity.current_frame, 1);
}

#[test]
fn apply_reports_a_bad_frame_and_moves_all_the_same() {
    let mut entity = three_frames();
    let result = CallbackResult {
        new_x: Some(4),
        new_y: Some(-30),
        new_z: None,
        new_frame: Some(3),
        die: true,
    };
    assert_eq!(
        entity.apply(&result, 80, 24),
        Err(AnimationError::InvalidFrame { entity: "bird".to_string(), frame: 3 })
    );
    assert_eq!(entity.pos, Position { x: 4, y: -30, z: 0 });
    assert_eq!(entity.current_frame, 0);
}

#[test]
fn defaults() {
    assert_eq!(Position::default(), Position { x: 0, y: 0, z: 0 });
    assert_eq!(FollowOffset::default(), FollowOffset { x: None, y: None, z: None });
    assert_eq!(
        CallbackResult::default(),
        CallbackResult { new_x: None, new_y: None, new_z: None, new_frame: None, die: false }
    );
    let entity = Entity::default();
    assert_eq!(entity.name, "");
    assert_eq!(entity.frames.len(), 0);
    assert_eq!(entity.pos, Position { x: 0, y: 0, z: 0 });
    assert_eq!(entity.follow_offset, FollowOffset { x: None, y: None, z: None });
    assert_eq!((entity.width, entity.height, entity.depth), (0, 0, 0));
}
