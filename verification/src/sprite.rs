//! Sprites: the lines of styled characters that make up one picture of an
//! entity.

use vstd::prelude::*;
use vstd::std_specs::iter::IteratorSpec;
use crossterm::style::StyledContent;

verus! {

/// `crossterm::style::StyledContent`, a piece of content together with the
/// colours and attributes it is printed with. The library carries such
/// values and never looks inside them.
#[verifier::external_type_specification]
#[verifier::external_body]
#[verifier::reject_recursive_types(D)]
pub struct ExStyledContent<D: std::fmt::Display>(StyledContent<D>);

/// The value that `crossterm::style::style` makes of one character: that
/// character with the default style (no colours, no attributes).
pub uninterp spec fn styled(c: char) -> StyledContent<char>;

/// Calls `crossterm::style::style` on one character. The result is a function
/// of the character alone, so it is the value named [`styled`].
#[verifier::external_body]
fn style_char(c: char) -> (r: StyledContent<char>)
    ensures
        r == styled(c),
{
    crossterm::style::style(c)
}

/// One line of a sprite, a styled character per cell.
pub struct StyledLine(pub Vec<StyledContent<char>>);

/// One picture of an entity: its lines from top to bottom.
pub struct StyledSprite {
    pub lines: Vec<StyledLine>,
}

/// The lines of a text: the pieces between its line feeds. A text without a
/// line feed is one line, and a text of `n` line feeds has `n + 1` lines, the
/// last of them empty where the text ends in a line feed.
pub open spec fn split_lines(s: Seq<char>) -> Seq<Seq<char>>
    decreases s.len(),
{
    if s.len() == 0 {
        seq![Seq::<char>::empty()]
    } else {
        let before = split_lines(s.drop_last());
        if s.last() == '\n' {
            before.push(Seq::<char>::empty())
        } else {
            before.update(before.len() - 1, before.last().push(s.last()))
        }
    }
}

/// The lines joined again, a line feed between each two.
pub open spec fn join_lines(lines: Seq<Seq<char>>) -> Seq<char>
    decreases lines.len(),
{
    if lines.len() == 0 {
        Seq::<char>::empty()
    } else if lines.len() == 1 {
        lines[0]
    } else {
        join_lines(lines.drop_last()).push('\n') + lines.last()
    }
}

/// The length of the longest of the lines, 0 where there is none.
pub open spec fn longest_line(lines: Seq<Seq<char>>) -> nat
    decreases lines.len(),
{
    if lines.len() == 0 {
        0
    } else {
        let before = longest_line(lines.drop_last());
        if lines.last().len() > before {
            lines.last().len()
        } else {
            before
        }
    }
}

/// A text has at least one line.
pub proof fn lemma_split_lines_nonempty(s: Seq<char>)
    ensures
        split_lines(s).len() >= 1,
    decreases s.len(),
{
    if s.len() > 0 {
        lemma_split_lines_nonempty(s.drop_last());
    }
}

/// Splitting loses nothing and cuts at every line feed: no line holds a line
/// feed, and the lines joined by line feeds are the text again.
pub proof fn lemma_split_lines_exact(s: Seq<char>)
    ensures
        forall|i: int, j: int|
            0 <= i < split_lines(s).len() && 0 <= j < split_lines(s)[i].len()
                ==> #[trigger] split_lines(s)[i][j] != '\n',
        join_lines(split_lines(s)) == s,
    decreases s.len(),
{
    lemma_split_lines_nonempty(s);
    if s.len() == 0 {
        assert(join_lines(split_lines(s)) =~= s);
    } else {
        let shorter = s.drop_last();
        let before = split_lines(shorter);
        lemma_split_lines_exact(shorter);
        lemma_split_lines_nonempty(shorter);
        let all = split_lines(s);
        if s.last() == '\n' {
            assert(all.drop_last() =~= before);
            assert(join_lines(all) =~= join_lines(before).push('\n') + Seq::<char>::empty());
            assert(join_lines(all) =~= shorter.push('\n'));
            assert(shorter.push('\n') =~= s);
        } else {
            let k = before.len() - 1;
            assert(all.len() == before.len());
            if before.len() == 1 {
                assert(join_lines(before) == before[0]);
                assert(join_lines(all) == all[0]);
                assert(all[0] =~= before[0].push(s.last()));
                assert(shorter.push(s.last()) =~= s);
            } else {
                assert(all.drop_last() =~= before.drop_last());
                assert(join_lines(all) == join_lines(before.drop_last()).push('\n') + all.last());
                assert(join_lines(before) == join_lines(before.drop_last()).push('\n')
                    + before.last());
                assert(join_lines(all) =~= join_lines(before).push(s.last()));
                assert(shorter.push(s.last()) =~= s);
            }
            assert forall|i: int, j: int|
                0 <= i < all.len() && 0 <= j < all[i].len() implies #[trigger] all[i][j]
                != '\n' by {
                if i == k && j == before[k].len() {
                } else {
                    assert(all[i][j] == before[i][j]);
                }
            }
        }
    }
}

impl StyledLine {
    /// The cells of the line.
    pub open spec fn view(&self) -> Seq<StyledContent<char>> {
        self.0@
    }

    /// The line shows `text`: a cell for each character, styled by default.
    pub open spec fn shows(&self, text: Seq<char>) -> bool {
        &&& self@.len() == text.len()
        &&& forall|j: int| 0 <= j < text.len() ==> self@[j] == styled(#[trigger] text[j])
    }
}

impl StyledSprite {
    /// The lines of the sprite.
    pub open spec fn view(&self) -> Seq<StyledLine> {
        self.lines@
    }

    /// The sprite shows `text`: a line for each line of it.
    pub open spec fn shows(&self, text: Seq<Seq<char>>) -> bool {
        &&& self@.len() == text.len()
        &&& forall|i: int| 0 <= i < text.len() ==> (#[trigger] self@[i]).shows(text[i])
    }

    /// The number of lines.
    pub open spec fn rows(&self) -> nat {
        self@.len()
    }

    /// The number of cells of the longest line, 0 for a sprite without lines.
    pub open spec fn columns(&self) -> nat {
        widest(self@)
    }

    /// A sprite from plain text: one line for each line of `source`, and in
    /// each line one cell for each character, in the default style.
    pub fn from_str_simple(source: &str) -> (r: Self)
        ensures
            r.shows(split_lines(source@)),
    {
        let mut lines: Vec<StyledLine> = Vec::new();
        let mut cells: Vec<StyledContent<char>> = Vec::new();
        for c in it: source.chars()
            invariant
                it.seq() == source@,
                split_lines(source@.take(it.index())).len() == lines@.len() + 1,
                forall|i: int|
                    0 <= i < lines@.len() ==> (#[trigger] lines@[i]).shows(
                        split_lines(source@.take(it.index()))[i],
                    ),
                cells@.len() == split_lines(source@.take(it.index())).last().len(),
                forall|j: int|
                    0 <= j < cells@.len() ==> cells@[j] == styled(
                        #[trigger] split_lines(source@.take(it.index())).last()[j],
                    ),
        {
            let ghost read = source@.take(it.index());
            let ghost next = source@.take(it.index() + 1);
            proof {
                assert(next.drop_last() =~= read);
                assert(next.last() == c);
                lemma_split_lines_nonempty(read);
            }
            if c == '\n' {
                lines.push(StyledLine(cells));
                cells = Vec::new();
            } else {
                cells.push(style_char(c));
            }
        }
        proof {
            assert(source@.take(source@.len() as int) =~= source@);
        }
        lines.push(StyledLine(cells));
        StyledSprite { lines }
    }
}

/// The number of cells of the longest of the lines, 0 where there is none.
pub open spec fn widest(lines: Seq<StyledLine>) -> nat
    decreases lines.len(),
{
    if lines.len() == 0 {
        0
    } else {
        let before = widest(lines.drop_last());
        if lines.last()@.len() > before {
            lines.last()@.len()
        } else {
            before
        }
    }
}

} // verus!
