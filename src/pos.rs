use vstd::prelude::*;

verus! {

/// A (line, column) coordinate in a source text, both counted from zero.
#[derive(Clone, Copy, Debug, PartialEq, Eq, Structural)]
pub struct Position {
    pub line: usize,
    pub col: usize,
}

/// A span of source text given by the coordinates of its two ends.
#[derive(Clone, Copy, Debug, PartialEq, Eq, Structural)]
pub struct BiPos {
    pub start: Position,
    pub end: Position,
}

/// The coordinate reached after reading `s` from the beginning of a text:
/// a line break starts a new line at column zero, any other character moves
/// one column to the right.
pub open spec fn position_after(s: Seq<char>) -> (nat, nat)
    decreases s.len(),
{
    if s.len() == 0 {
        (0, 0)
    } else {
        let (line, col) = position_after(s.drop_last());
        if s.last() == '\n' {
            (line + 1, 0)
        } else {
            (line, col + 1)
        }
    }
}

/// Whether `p` is the coordinate reached after reading `s`.
pub open spec fn is_position_after(p: Position, s: Seq<char>) -> bool {
    position_after(s) == (p.line as nat, p.col as nat)
}

/// Reading `s` moves at most one line or column per character.
pub proof fn lemma_position_bounded(s: Seq<char>)
    ensures
        position_after(s).0 + position_after(s).1 <= s.len(),
    decreases s.len(),
{
    if s.len() > 0 {
        lemma_position_bounded(s.drop_last());
    }
}

impl Position {
    /// The first coordinate of a text.
    pub fn origin() -> (r: Position)
        ensures
            r.line == 0,
            r.col == 0,
    {
        Position { line: 0, col: 0 }
    }

    /// The coordinate after reading one more character `c`.
    pub fn advanced(self, c: char) -> (r: Position)
        requires
            c == '\n' ==> self.line < usize::MAX,
            c != '\n' ==> self.col < usize::MAX,
        ensures
            c == '\n' ==> r == (Position { line: (self.line + 1) as usize, col: 0 }),
            c != '\n' ==> r == (Position { line: self.line, col: (self.col + 1) as usize }),
    {
        if c == '\n' {
            Position { line: self.line + 1, col: 0 }
        } else {
            Position { line: self.line, col: self.col + 1 }
        }
    }
}

impl BiPos {
    /// The empty span at the beginning of a text.
    pub fn origin() -> (r: BiPos)
        ensures
            r.start == (Position { line: 0, col: 0 }),
            r.end == (Position { line: 0, col: 0 }),
    {
        BiPos { start: Position::origin(), end: Position::origin() }
    }

    /// Makes the span empty at its end, so that the next span begins where
    /// this one stopped.
    pub fn collapse(&mut self)
        ensures
            final(self).start == old(self).end,
            final(self).end == old(self).end,
    {
        self.start = self.end;
    }
}

} // verus!
