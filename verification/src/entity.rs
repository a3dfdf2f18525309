//! The entity: one simulated object with its place, its pictures, its hooks
//! and the conditions under which it dies.

use vstd::prelude::*;
use crate::error::AnimationError;
use crate::geometry::{boxes_intersect, coord_intersects, Box3, Position};
use crate::sprite::{longest_line, split_lines, widest, StyledLine, StyledSprite};

verus! {

/// The handle of a behaviour or death hook: the number under which the
/// scheduler asks [`crate::hooks::Hooks`] for it.
pub type Callback = usize;

/// The handle of a collision hook.
pub type CollHandler = usize;

/// What a hook asks for. A field that is `None` leaves that part of the
/// entity as it is; `die` marks the entity for removal in this frame.
#[derive(Clone, Copy, Debug, PartialEq, Eq)]
pub struct CallbackResult {
    pub new_x: Option<i16>,
    pub new_y: Option<i16>,
    pub new_z: Option<i16>,
    pub new_frame: Option<usize>,
    pub die: bool,
}

impl CallbackResult {
    /// The result that asks for nothing.
    pub open spec fn quiet() -> CallbackResult {
        CallbackResult { new_x: None, new_y: None, new_z: None, new_frame: None, die: false }
    }
}

impl Default for CallbackResult {
    fn default() -> (r: Self)
        ensures
            r == CallbackResult::quiet(),
    {
        CallbackResult { new_x: None, new_y: None, new_z: None, new_frame: None, die: false }
    }
}

/// How a follower stands to its leader, axis by axis: `Some(d)` keeps the
/// follower `d` cells from the leader on that axis, `None` leaves the axis
/// alone.
#[derive(Clone, Copy, Debug, PartialEq, Eq)]
pub struct FollowOffset {
    pub x: Option<i16>,
    pub y: Option<i16>,
    pub z: Option<i16>,
}

impl Default for FollowOffset {
    fn default() -> (r: Self)
        ensures
            r == (FollowOffset { x: None, y: None, z: None }),
    {
        FollowOffset { x: None, y: None, z: None }
    }
}

/// One simulated object.
pub struct Entity {
    /// The identity of the entity; the scheduler holds one entity per name.
    pub name: String,
    // appearance
    pub transparent: Option<char>,
    pub frames: Vec<StyledSprite>,
    pub width: i16,
    pub height: i16,
    pub pos: Position,
    // collision detection
    pub physical: bool,
    pub depth: i16,
    pub coll_handler: Option<CollHandler>,
    // behaviour
    pub wrap: bool,
    pub callback: Option<Callback>,
    pub follow_entity: Option<String>,
    pub follow_offset: FollowOffset,
    // state
    pub current_frame: usize,
    // death
    pub die_offscreen: bool,
    pub die_frame: Option<i32>,
    pub death_callback: Option<Callback>,
    pub die_entity: Option<String>,
}

/// A value brought into the range of a coordinate: beyond it, the nearest end.
pub open spec fn clamped(v: int) -> int {
    if v < i16::MIN {
        i16::MIN as int
    } else if v > i16::MAX {
        i16::MAX as int
    } else {
        v
    }
}

/// The coordinate that is stored when `v` is asked for on an axis of `bound`
/// cells. With `wrap` set and a canvas that has cells (`bound > 0`), a value
/// outside `0 .. bound` is replaced by its Euclidean remainder, which lies in
/// `0 .. bound` also for a negative `v`. Otherwise the value is stored as it
/// is, or at the nearest end of the coordinate range where it is beyond it.
pub open spec fn placed(v: int, wrap: bool, bound: int) -> int {
    if wrap && bound > 0 && (v >= bound || v < 0) {
        v % bound
    } else {
        clamped(v)
    }
}

/// Wrapping brings every value onto the canvas: one step past the last cell
/// is the first cell, one step before the first cell is the last.
pub proof fn lemma_placed_wraps(v: int, bound: int)
    requires
        0 < bound <= i16::MAX,
    ensures
        0 <= placed(v, true, bound) < bound,
        placed(bound, true, bound) == 0,
        placed(-1, true, bound) == bound - 1,
        0 <= v < bound ==> placed(v, true, bound) == v,
{
    assert(0 <= v % bound < bound);
    assert(bound % bound == 0) by (nonlinear_arith)
        requires
            bound > 0,
    ;
    assert((-1) % bound == bound - 1) by (nonlinear_arith)
        requires
            bound > 0,
    ;
}

/// Without wrapping a coordinate of the grid is stored unchanged.
pub proof fn lemma_placed_plain(v: i16, bound: int)
    ensures
        placed(v as int, false, bound) == v,
{
}

/// Computes [`placed`].
pub fn place(v: i32, wrap: bool, bound: i16) -> (r: i16)
    ensures
        r == placed(v as int, wrap, bound as int),
{
    let cells: i32 = bound as i32;
    if wrap && cells > 0 && (v >= cells || v < 0) {
        // the remainder by a positive bound always exists
        let m: i32 = match v.checked_rem_euclid(cells) {
            Some(m) => m,
            None => 0,
        };
        assert(0 <= (v as int) % (cells as int) < cells);
        m as i16
    } else if v < i16::MIN as i32 {
        i16::MIN
    } else if v > i16::MAX as i32 {
        i16::MAX
    } else {
        v as i16
    }
}

/// The number of lines of the tallest picture, 0 where there is none.
pub open spec fn tallest(frames: Seq<StyledSprite>) -> nat
    decreases frames.len(),
{
    if frames.len() == 0 {
        0
    } else {
        let before = tallest(frames.drop_last());
        if frames.last().rows() > before {
            frames.last().rows()
        } else {
            before
        }
    }
}

/// The number of cells of the longest line of any picture, 0 where there is
/// none.
pub open spec fn broadest(frames: Seq<StyledSprite>) -> nat
    decreases frames.len(),
{
    if frames.len() == 0 {
        0
    } else {
        let before = broadest(frames.drop_last());
        if frames.last().columns() > before {
            frames.last().columns()
        } else {
            before
        }
    }
}

/// A sprite that shows a text is as wide as the longest line of the text.
pub proof fn lemma_shown_width(lines: Seq<StyledLine>, text: Seq<Seq<char>>)
    requires
        lines.len() == text.len(),
        forall|i: int| 0 <= i < text.len() ==> (#[trigger] lines[i]).shows(text[i]),
    ensures
        widest(lines) == longest_line(text),
    decreases lines.len(),
{
    if lines.len() > 0 {
        lemma_shown_width(lines.drop_last(), text.drop_last());
        assert(lines.last().shows(text.last()));
    }
}

/// What the entity is after `result` has been applied to `e` on a canvas of
/// `width` by `height` cells: each coordinate that is asked for is stored as
/// [`placed`] says (the layer has no bound), and the frame is taken over if
/// the entity has a picture for it.
pub open spec fn applied(e: Entity, result: CallbackResult, width: int, height: int) -> Entity {
    Entity {
        pos: Position {
            x: match result.new_x {
                Some(x) => placed(x as int, e.wrap, width) as i16,
                None => e.pos.x,
            },
            y: match result.new_y {
                Some(y) => placed(y as int, e.wrap, height) as i16,
                None => e.pos.y,
            },
            z: match result.new_z {
                Some(z) => z,
                None => e.pos.z,
            },
        },
        current_frame: match result.new_frame {
            Some(f) => if f < e.frames@.len() {
                f
            } else {
                e.current_frame
            },
            None => e.current_frame,
        },
        ..e
    }
}

/// Whether `result` asks `e` for a frame that it has no picture for.
pub open spec fn bad_frame(e: Entity, result: CallbackResult) -> bool {
    result.new_frame matches Some(f) && f >= e.frames@.len()
}

impl Default for Entity {
    /// An entity without a name, pictures, hooks or death conditions, at the
    /// origin and of no size.
    fn default() -> (r: Self)
        ensures
            r.is_blank(),
            r.frames@.len() == 0,
            r.width == 0,
            r.height == 0,
    {
        Entity {
            name: String::new(),
            transparent: None,
            frames: Vec::new(),
            width: 0,
            height: 0,
            pos: Position { x: 0, y: 0, z: 0 },
            physical: false,
            depth: 0,
            coll_handler: None,
            wrap: false,
            callback: None,
            follow_entity: None,
            follow_offset: FollowOffset { x: None, y: None, z: None },
            current_frame: 0,
            die_offscreen: false,
            die_frame: None,
            death_callback: None,
            die_entity: None,
        }
    }
}

impl Entity {
    /// Everything but the pictures and the width and height they give is as
    /// in a new entity: no name, the origin, no depth, not physical, no
    /// wrapping, no hooks, no leader, the first frame, no death condition.
    pub open spec fn is_blank(&self) -> bool {
        &&& self.name@ == Seq::<char>::empty()
        &&& self.transparent == None::<char>
        &&& self.pos == (Position { x: 0, y: 0, z: 0 })
        &&& !self.physical
        &&& self.depth == 0
        &&& self.coll_handler == None::<CollHandler>
        &&& !self.wrap
        &&& self.callback == None::<Callback>
        &&& self.follow_entity == None::<String>
        &&& self.follow_offset == (FollowOffset { x: None, y: None, z: None })
        &&& self.current_frame == 0
        &&& !self.die_offscreen
        &&& self.die_frame == None::<i32>
        &&& self.death_callback == None::<Callback>
        &&& self.die_entity == None::<String>
    }

    /// The box that the entity fills.
    pub open spec fn bounds(&self) -> Box3 {
        Box3 {
            x: self.pos.x as int,
            y: self.pos.y as int,
            z: self.pos.z as int,
            width: self.width as int,
            height: self.height as int,
            depth: self.depth as int,
        }
    }

    /// The current frame is one that the entity has a picture for.
    pub open spec fn frame_valid(&self) -> bool {
        self.current_frame < self.frames@.len()
    }

    /// An entity with one picture, read from plain text, and the width and
    /// height of that picture.
    ///
    /// The text may have at most `i16::MAX` lines, none of them longer than
    /// `i16::MAX` characters. Where that is not known, make the picture with
    /// [`StyledSprite::from_str_simple`] and ask [`Entity::dimensions`].
    pub fn from_sprite_simple(sprite: &str) -> (r: Self)
        requires
            split_lines(sprite@).len() <= i16::MAX,
            longest_line(split_lines(sprite@)) <= i16::MAX,
        ensures
            r.is_blank(),
            r.frames@.len() == 1,
            r.frames@[0].shows(split_lines(sprite@)),
            r.height == split_lines(sprite@).len(),
            r.width == longest_line(split_lines(sprite@)),
            r.frame_valid(),
    {
        let picture = StyledSprite::from_str_simple(sprite);
        let mut frames: Vec<StyledSprite> = Vec::new();
        frames.push(picture);
        let mut new_entity = Entity::default();
        new_entity.frames = frames;
        proof {
            lemma_shown_width(new_entity.frames@[0]@, split_lines(sprite@));
            reveal_with_fuel(tallest, 2);
            reveal_with_fuel(broadest, 2);
            assert(tallest(new_entity.frames@) == split_lines(sprite@).len());
            assert(broadest(new_entity.frames@) == longest_line(split_lines(sprite@)));
        }
        new_entity.calc_dimensions();
        new_entity
    }

    /// The width and the height that the pictures give: the length of the
    /// longest line and the greatest number of lines. `None` where the entity
    /// has no picture, or one that is larger than `i16::MAX` either way.
    pub fn dimensions(&self) -> (r: Option<(i16, i16)>)
        ensures
            r is Some <==> self.frames@.len() > 0 && tallest(self.frames@) <= i16::MAX && broadest(
                self.frames@,
            ) <= i16::MAX,
            r matches Some((width, height)) ==> width == broadest(self.frames@) && height
                == tallest(self.frames@),
    {
        let mut rows: usize = 0;
        let mut columns: usize = 0;
        let mut f: usize = 0;
        while f < self.frames.len()
            invariant
                f <= self.frames@.len(),
                rows == tallest(self.frames@.take(f as int)),
                columns == broadest(self.frames@.take(f as int)),
            decreases self.frames@.len() - f,
        {
            let picture = &self.frames[f];
            let mut longest: usize = 0;
            let mut l: usize = 0;
            while l < picture.lines.len()
                invariant
                    l <= picture.lines@.len(),
                    longest == widest(picture.lines@.take(l as int)),
                decreases picture.lines@.len() - l,
            {
                proof {
                    assert(picture.lines@.take(l + 1).drop_last() =~= picture.lines@.take(
                        l as int,
                    ));
                }
                let cells: usize = picture.lines[l].0.len();
                if cells > longest {
                    longest = cells;
                }
                l += 1;
            }
            proof {
                assert(picture.lines@.take(picture.lines@.len() as int) =~= picture.lines@);
                assert(self.frames@.take(f + 1).drop_last() =~= self.frames@.take(f as int));
            }
            if picture.lines.len() > rows {
                rows = picture.lines.len();
            }
            if longest > columns {
                columns = longest;
            }
            f += 1;
        }
        proof {
            assert(self.frames@.take(self.frames@.len() as int) =~= self.frames@);
        }
        if self.frames.len() == 0 || rows > i16::MAX as usize || columns > i16::MAX as usize {
            None
        } else {
            Some((columns as i16, rows as i16))
        }
    }

    /// Sets the width and the height to those of the largest picture: the
    /// height to the greatest number of lines, the width to the length of the
    /// longest line.
    ///
    /// The entity must have a picture, and no picture may be larger than
    /// `i16::MAX` either way; [`Entity::dimensions`] tells.
    pub fn calc_dimensions(&mut self)
        requires
            old(self).frames@.len() > 0,
            tallest(old(self).frames@) <= i16::MAX,
            broadest(old(self).frames@) <= i16::MAX,
        ensures
            *final(self) == (Entity {
                height: tallest(old(self).frames@) as i16,
                width: broadest(old(self).frames@) as i16,
                ..*old(self)
            }),
    {
        if let Some((width, height)) = self.dimensions() {
            self.width = width;
            self.height = height;
        }
    }

    /// Moves the entity to column `new_x` of a canvas `anim_width` cells wide,
    /// wrapped onto the canvas if the entity wraps: see [`placed`].
    pub fn set_x(&mut self, new_x: i16, anim_width: i16)
        ensures
            *final(self) == (Entity {
                pos: Position {
                    x: placed(new_x as int, old(self).wrap, anim_width as int) as i16,
                    ..old(self).pos
                },
                ..*old(self)
            }),
    {
        self.pos.x = place(new_x as i32, self.wrap, anim_width);
    }

    /// Moves the entity to row `new_y` of a canvas `anim_height` cells high,
    /// wrapped onto the canvas if the entity wraps: see [`placed`].
    pub fn set_y(&mut self, new_y: i16, anim_height: i16)
        ensures
            *final(self) == (Entity {
                pos: Position {
                    y: placed(new_y as int, old(self).wrap, anim_height as int) as i16,
                    ..old(self).pos
                },
                ..*old(self)
            }),
    {
        self.pos.y = place(new_y as i32, self.wrap, anim_height);
    }

    /// Moves the entity to layer `new_z`. The layers have no bound.
    pub fn set_z(&mut self, new_z: i16)
        ensures
            *final(self) == (Entity {
                pos: Position { z: new_z, ..old(self).pos },
                ..*old(self)
            }),
    {
        self.pos.z = new_z;
    }

    /// Makes `new_frame` the current frame if the entity has a picture for
    /// it. Otherwise the entity is left as it is and the error names it.
    pub fn set_frame(&mut self, new_frame: usize) -> (r: Result<(), AnimationError>)
        ensures
            new_frame < old(self).frames@.len() ==> r is Ok && *final(self) == (Entity {
                current_frame: new_frame,
                ..*old(self)
            }),
            new_frame >= old(self).frames@.len() ==> *final(self) == *old(self) && r == Err::<
                (),
                AnimationError,
            >(AnimationError::InvalidFrame { entity: old(self).name, frame: new_frame }),
    {
        if new_frame < self.frames.len() {
            self.current_frame = new_frame;
            Ok(())
        } else {
            Err(AnimationError::InvalidFrame { entity: self.name.clone(), frame: new_frame })
        }
    }

    /// Whether the boxes of the two entities intersect: see
    /// [`boxes_intersect`].
    pub fn intersects(&self, other: &Entity) -> (r: bool)
        ensures
            r == boxes_intersect(self.bounds(), other.bounds()),
    {
        coord_intersects(self.pos.x, other.pos.x, self.height, other.height)
            && coord_intersects(self.pos.y, other.pos.y, self.width, other.width)
            && coord_intersects(self.pos.z, other.pos.z, self.depth, other.depth)
    }

    /// Applies what a hook asked for, on a canvas of `canvas_width` by
    /// `canvas_height` cells: the coordinates through the setters, then the
    /// frame. A frame without a picture is reported and leaves the current
    /// frame as it is; the coordinates are applied all the same.
    pub fn apply(&mut self, result: &CallbackResult, canvas_width: i16, canvas_height: i16) -> (r:
        Result<(), AnimationError>)
        ensures
            *final(self) == applied(*old(self), *result, canvas_width as int, canvas_height as int),
            bad_frame(*old(self), *result) ==> r == Err::<(), AnimationError>(
                AnimationError::InvalidFrame {
                    entity: old(self).name,
                    frame: result.new_frame.unwrap(),
                },
            ),
            !bad_frame(*old(self), *result) ==> r is Ok,
    {
        if let Some(x) = result.new_x {
            self.set_x(x, canvas_width);
        }
        if let Some(y) = result.new_y {
            self.set_y(y, canvas_height);
        }
        if let Some(z) = result.new_z {
            self.set_z(z);
        }
        if let Some(frame) = result.new_frame {
            self.set_frame(frame)
        } else {
            Ok(())
        }
    }
}

} // verus!
