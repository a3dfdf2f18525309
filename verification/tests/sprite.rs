use crossterm::style::{style, ContentStyle};
use term_animation::{Entity, StyledSprite};

#[test]
fn from_str_simple_lines() {
    let sprite = StyledSprite::from_str_simple("ab\nc\n\ndef");
    assert_eq!(sprite.lines.len(), 4);
    assert_eq!(sprite.lines[0].0.len(), 2);
    assert_eq!(sprite.lines[1].0.len(), 1);
    assert_eq!(sprite.lines[2].0.len(), 0);
    assert_eq!(sprite.lines[3].0.len(), 3);
}

#[test]
fn from_str_simple_styles_each_character() {
    let sprite = StyledSprite::from_str_simple("xy\n~");
    assert_eq!(*sprite.lines[0].0[0].content(), 'x');
    assert_eq!(*sprite.lines[0].0[1].content(), 'y');
    assert_eq!(*sprite.lines[1].0[0].content(), '~');
    assert_eq!(*sprite.lines[0].0[0].style(), ContentStyle::default());
    assert_eq!(sprite.lines[0].0[1], style('y'));
    assert_ne!(sprite.lines[0].0[1], style('x'));
}

#[test]
fn from_str_simple_empty_text_is_one_empty_line() {
    let sprite = StyledSprite::from_str_simple("");
    assert_eq!(sprite.lines.len(), 1);
    assert_eq!(sprite.lines[0].0.len(), 0);
}

#[test]
fn from_str_simple_line_feed_at_the_end() {
    let sprite = StyledSprite::from_str_simple("a\n");
    assert_eq!(sprite.lines.len(), 2);
    assert_eq!(sprite.lines[0].0.len(), 1);
    assert_eq!(sprite.lines[1].0.len(), 0);
}

#[test]
fn from_str_simple_counts_characters_not_bytes() {
    let sprite = StyledSprite::from_str_simple("äöü\n→");
    assert_eq!(sprite.lines[0].0.len(), 3);
    assert_eq!(sprite.lines[1].0.len(), 1);
    assert_eq!(*sprite.lines[1].0[0].content(), '→');
}

#[test]
fn from_sprite_simple_is_blank_but_for_the_picture() {
    let entity = Entity::from_sprite_simple("ab\ncde");
    assert_eq!(entity.name, "");
    assert_eq!(entity.frames.len(), 1);
    assert_eq!(entity.width, 3);
    assert_eq!(entity.height, 2);
    assert_eq!(entity.depth, 0);
    assert_eq!(entity.current_frame, 0);
    assert!(!entity.physical);
    assert!(!entity.wrap);
    assert!(entity.callback.is_none());
    assert!(entity.coll_handler.is_none());
    assert!(entity.death_callback.is_none());
    assert!(entity.follow_entity.is_none());
    assert!(entity.die_frame.is_none());
    assert!(entity.die_entity.is_none());
    assert!(!entity.die_offscreen);
}

#[test]
fn calc_dimensions_takes_the_largest_picture() {
    let mut entity = Entity::default();
    entity.frames.push(StyledSprite::from_str_simple("abcd"));
    entity.frames.push(StyledSprite::from_str_simple("a\nb\nc"));
    entity.frames.push(StyledSprite::from_str_simple("ab\ncd"));
    entity.calc_dimensions();
    assert_eq!(entity.width, 4);
    assert_eq!(entity.height, 3);
}

#[test]
fn dimensions_of_the_pictures() {
    let mut entity = Entity::default();
    assert_eq!(entity.dimensions(), None);
    entity.frames.push(StyledSprite::from_str_simple(""));
    assert_eq!(entity.dimensions(), Some((0, 1)));
    entity.frames.push(StyledSprite::from_str_simple("abc\nde"));
    assert_eq!(entity.dimensions(), Some((3, 2)));
    // the entity itself is not changed
    assert_eq!((entity.width, entity.height), (0, 0));
}

#[test]
fn dimensions_beyond_an_entity() {
    let long = "x".repeat(i16::MAX as usize);
    let mut entity = Entity::default();
    entity.frames.push(StyledSprite::from_str_simple(&long));
    assert_eq!(entity.dimensions(), Some((i16::MAX, 1)));
    entity.calc_dimensions();
    assert_eq!((entity.width, entity.height), (i16::MAX, 1));
    let mut entity = Entity::default();
    entity.frames.push(StyledSprite::from_str_simple(&(long + "x")));
    assert_eq!(entity.dimensions(), None);
    let tall = "\n".repeat(i16::MAX as usize);
    let mut entity = Entity::default();
    entity.frames.push(StyledSprite::from_str_simple(&tall));
    assert_eq!(entity.dimensions(), None);
    let mut entity = Entity::default();
    entity.frames.push(StyledSprite::from_str_simple(&tall[1..]));
    assert_eq!(entity.dimensions(), Some((0, i16::MAX)));
}
