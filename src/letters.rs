//! Walking a block of text (rows of letters, each ended by a newline) along
//! rows, columns, diagonals or anti-diagonals, with wrap-around from one line
//! to the next.
use vstd::prelude::*;

verus! {

/// The four directions of a walk.
#[derive(Clone, Copy, Debug, PartialEq, Eq, Structural)]
pub enum Direction {
    Horizontal,
    Vertical,
    Diagonal,
    AntiDiagonal,
}

/// Text as bytes, `width` letters per line, each line followed by a newline.
pub struct LetterMatrix {
    pub letters: Vec<u8>,
    pub width: usize,
}

/// A walk over a letter matrix: the next position and whether the last step
/// wrapped to a new line.
pub struct LinearIterator<'a> {
    pub matrix: &'a LetterMatrix,
    pub direction: Direction,
    pub cursor: usize,
    pub did_wrap: bool,
}

impl LetterMatrix {
    /// A walk along the rows, from the first letter.
    pub fn rows(&self) -> (r: LinearIterator<'_>)
        ensures
            r.matrix == self,
            r.direction == Direction::Horizontal,
            r.cursor == 0,
            !r.did_wrap,
    {
        LinearIterator { matrix: self, direction: Direction::Horizontal, cursor: 0, did_wrap: false }
    }

    /// A walk along the columns, from the first letter.
    pub fn columns(&self) -> (r: LinearIterator<'_>)
        ensures
            r.matrix == self,
            r.direction == Direction::Vertical,
            r.cursor == 0,
            !r.did_wrap,
    {
        LinearIterator { matrix: self, direction: Direction::Vertical, cursor: 0, did_wrap: false }
    }

    /// A walk along the diagonals (down and right), from the first letter.
    pub fn diagonals(&self) -> (r: LinearIterator<'_>)
        ensures
            r.matrix == self,
            r.direction == Direction::Diagonal,
            r.cursor == 0,
            !r.did_wrap,
    {
        LinearIterator { matrix: self, direction: Direction::Diagonal, cursor: 0, did_wrap: false }
    }

    /// A walk along the anti-diagonals (down and left), from the first letter.
    pub fn anti_diagonals(&self) -> (r: LinearIterator<'_>)
        ensures
            r.matrix == self,
            r.direction == Direction::AntiDiagonal,
            r.cursor == 0,
            !r.did_wrap,
    {
        LinearIterator { matrix: self, direction: Direction::AntiDiagonal, cursor: 0, did_wrap: false }
    }
}

/// The letters fill whole lines of `width` letters and a newline, and a few
/// steps past the end still fit in a `usize`.
pub open spec fn well_formed(m: &LetterMatrix) -> bool {
    &&& 1 <= m.letters@.len()
    &&& m.width <= m.letters@.len()
    &&& 2 * m.letters@.len() + m.width + 2 <= usize::MAX
}

impl<'a> LinearIterator<'a> {
    /// The next letter of the walk with its index, a newline (at index
    /// zero) to mark the end of a line, or `None` once the walk is back at
    /// the start.
    pub fn next(&mut self) -> (r: Option<(usize, u8)>)
        requires
            well_formed(old(self).matrix),
            old(self).cursor < old(self).matrix.letters@.len(),
        ensures
            final(self).matrix == old(self).matrix,
            final(self).direction == old(self).direction,
            final(self).cursor < final(self).matrix.letters@.len(),
            old(self).did_wrap && old(self).cursor == 0 ==> r.is_none() && *final(self) == *old(self),
            old(self).did_wrap && old(self).cursor != 0 ==> r == Some((0usize, 10u8))
                && final(self).cursor == old(self).cursor && !final(self).did_wrap,
            !old(self).did_wrap ==> {
                let (c, w) = advance_spec(
                    old(self).matrix.letters@,
                    old(self).matrix.width as int,
                    old(self).cursor as int,
                    old(self).direction,
                );
                &&& r == Some((old(self).cursor, old(self).matrix.letters@[old(self).cursor as int]))
                &&& final(self).cursor == c
                &&& final(self).did_wrap == w
            },
    {
        if self.did_wrap && self.cursor == 0 {
            return None;
        }
        if self.did_wrap {
            self.did_wrap = false;
            Some((0, 10u8))
        } else {
            let prev_cursor = self.cursor;
            let (cursor, did_wrap) = advance_cursor(self.matrix, self.cursor, &self.direction);
            self.cursor = cursor;
            self.did_wrap = did_wrap;
            Some((prev_cursor, self.matrix.letters[prev_cursor]))
        }
    }
}

/// How far one step moves in the text: one letter, or a line (plus its
/// newline) with no, one or minus one column of shift.
pub open spec fn step_spec(width: int, d: Direction) -> int {
    match d {
        Direction::Horizontal => 1,
        Direction::Vertical => width + 1,
        Direction::Diagonal => width + 2,
        Direction::AntiDiagonal => width,
    }
}

/// The extra shift after a step past the end of the text.
pub open spec fn wrapping_step_spec(d: Direction) -> int {
    match d {
        Direction::Vertical => 1,
        _ => 0,
    }
}

/// The extra shift after a step onto a newline.
pub open spec fn newline_step_spec(len: int, width: int, d: Direction) -> int {
    match d {
        Direction::Horizontal => 1,
        Direction::Vertical => len - width,
        Direction::Diagonal => 1,
        Direction::AntiDiagonal => len - 1,
    }
}

/// Where a step from `cursor` lands, and whether it wrapped: a step past the
/// end comes round (with the wrapping shift), and a step onto a newline moves
/// on by the newline shift.
pub open spec fn advance_spec(letters: Seq<u8>, width: int, cursor: int, d: Direction) -> (int, bool) {
    let len = letters.len() as int;
    let moved = cursor + step_spec(width, d);
    let wrapped = moved >= len;
    let m = if wrapped {
        (moved % len + wrapping_step_spec(d)) % len
    } else {
        moved % len
    };
    if letters[m] == 10u8 {
        ((m + newline_step_spec(len, width, d)) % len, true)
    } else {
        (m, wrapped)
    }
}

/// The size of one step in direction `direction`.
pub fn get_step(matrix: &LetterMatrix, direction: &Direction) -> (r: usize)
    requires
        matrix.width + 2 <= usize::MAX,
    ensures
        r == step_spec(matrix.width as int, *direction),
{
    match direction {
        Direction::Horizontal => 1,
        Direction::Vertical => matrix.width + 1,
        Direction::Diagonal => matrix.width + 2,
        Direction::AntiDiagonal => matrix.width,
    }
}

/// The extra shift after a step past the end of the text.
pub fn get_wrapping_step(direction: &Direction) -> (r: usize)
    ensures
        r == wrapping_step_spec(*direction),
{
    match direction {
        Direction::Horizontal => 0,
        Direction::Vertical => 1,
        Direction::Diagonal => 0,
        Direction::AntiDiagonal => 0,
    }
}

/// The extra shift after a step onto a newline.
pub fn get_newline_step(matrix: &LetterMatrix, direction: &Direction) -> (r: usize)
    requires
        1 <= matrix.letters@.len(),
        matrix.width <= matrix.letters@.len(),
    ensures
        r == newline_step_spec(matrix.letters@.len() as int, matrix.width as int, *direction),
{
    match direction {
        Direction::Horizontal => 1,
        Direction::Vertical => matrix.letters.len() - matrix.width,
        Direction::Diagonal => 1,
        Direction::AntiDiagonal => matrix.letters.len() - 1,
    }
}

/// One step of a walk from `cursor`: the new position and whether the walk
/// wrapped to another line.
pub fn advance_cursor(matrix: &LetterMatrix, cursor: usize, direction: &Direction) -> (r: (usize, bool))
    requires
        cursor < matrix.letters@.len(),
        matrix.width <= matrix.letters@.len(),
        2 * matrix.letters@.len() + matrix.width + 2 <= usize::MAX,
    ensures
        r.0 < matrix.letters@.len(),
        (r.0 as int, r.1) == advance_spec(matrix.letters@, matrix.width as int, cursor as int, *direction),
{
    let len = matrix.letters.len();
    let step = get_step(matrix, direction);
    let moved = cursor + step;
    let mut moved_wrapped = moved % len;
    let mut did_wrap = moved >= len;
    if did_wrap {
        moved_wrapped = (moved_wrapped + get_wrapping_step(direction)) % len;
    }
    if matrix.letters[moved_wrapped] == 10u8 {
        moved_wrapped = (moved_wrapped + get_newline_step(matrix, direction)) % len;
        did_wrap = true;
    }
    (moved_wrapped, did_wrap)
}

} // verus!
