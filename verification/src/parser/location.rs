//! Lines and columns.

use vstd::prelude::*;

verus! {

/// A line and a column of a text, both counted from one.
#[derive(Clone, Copy, Debug, PartialEq, Eq, Structural)]
pub struct Location {
    pub line: usize,
    pub column: usize,
}

impl Location {
    /// Where a text begins.
    pub open spec fn start() -> Location {
        Location { line: 1, column: 1 }
    }

    /// Where reading goes on once the character `c`, which stood here, has
    /// been read: a newline leads to the start of the next line, any other
    /// character one column further.
    pub open spec fn advance(self, c: char) -> Location {
        if c == '\n' {
            Location { line: (self.line + 1) as usize, column: 1 }
        } else {
            Location { line: self.line, column: (self.column + 1) as usize }
        }
    }

    /// Where reading goes on once `text` has been read from its start.
    pub open spec fn after(text: Seq<char>) -> Location
        decreases text.len(),
    {
        if text.len() == 0 {
            Location::start()
        } else {
            Location::after(text.drop_last()).advance(text.last())
        }
    }

    /// Moves one column further.
    pub fn next_column(&mut self)
        requires
            old(self).column < usize::MAX,
        ensures
            final(self).line == old(self).line,
            final(self).column == old(self).column + 1,
    {
        self.column += 1;
    }

    /// Moves to the start of the next line.
    pub fn next_line(&mut self)
        requires
            old(self).line < usize::MAX,
        ensures
            final(self).line == old(self).line + 1,
            final(self).column == 1,
    {
        self.line += 1;
        self.column = 1;
    }
}

impl Default for Location {
    fn default() -> (location: Location)
        ensures
            location == Location::start(),
    {
        Location { line: 1, column: 1 }
    }
}

/// Line and column are at least one, and together they have counted each
/// character read at most once.
pub proof fn lemma_after_bounds(text: Seq<char>)
    requires
        text.len() < usize::MAX,
    ensures
        1 <= Location::after(text).line,
        1 <= Location::after(text).column,
        Location::after(text).line + Location::after(text).column <= text.len() + 2,
    decreases text.len(),
{
    if text.len() > 0 {
        lemma_after_bounds(text.drop_last());
    }
}

/// How many newlines `text` holds.
pub open spec fn newlines(text: Seq<char>) -> int
    decreases text.len(),
{
    if text.len() == 0 {
        0
    } else if text.last() == '\n' {
        newlines(text.drop_last()) + 1
    } else {
        newlines(text.drop_last())
    }
}

/// The offset at which the last line of `text` starts: behind its last
/// newline, or at its start if it has none.
pub open spec fn last_line_start(text: Seq<char>) -> int
    decreases text.len(),
{
    if text.len() == 0 {
        0
    } else if text.last() == '\n' {
        text.len() as int
    } else {
        last_line_start(text.drop_last())
    }
}

/// The line reached is one more than the newlines read, and the column one
/// more than the characters read on the last line.
pub proof fn lemma_after_counts(text: Seq<char>)
    requires
        text.len() < usize::MAX,
    ensures
        0 <= newlines(text) <= text.len(),
        0 <= last_line_start(text) <= text.len(),
        Location::after(text).line == 1 + newlines(text),
        Location::after(text).column == 1 + text.len() - last_line_start(text),
    decreases text.len(),
{
    if text.len() > 0 {
        lemma_after_counts(text.drop_last());
    }
}

} // verus!
