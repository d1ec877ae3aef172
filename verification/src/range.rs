use vstd::prelude::*;

verus! {

/// A place in the source text: the character index, and the zero-based line
/// and column.
#[derive(Debug, PartialEq, Eq, Clone, Copy)]
pub struct Position {
    pub index: usize,
    pub line: usize,
    pub column: usize,
}

impl Position {
    pub fn new(index: usize, line: usize, column: usize) -> (position: Self)
        ensures
            position == (Position { index, line, column }),
    {
        Position { index, line, column }
    }
}

impl Default for Position {
    fn default() -> (position: Self)
        ensures
            position == (Position { index: 0, line: 0, column: 0 }),
    {
        Position { index: 0, line: 0, column: 0 }
    }
}

/// A span of the source text, from `start` to `end_inclusive`.
#[derive(Debug, PartialEq, Eq, Clone, Copy)]
pub struct Range {
    pub start: Position,
    pub end_inclusive: Position,
}

impl Range {
    pub fn new(start: Position, end_inclusive: Position) -> (range: Self)
        ensures
            range == (Range { start, end_inclusive }),
    {
        Range { start, end_inclusive }
    }

    /// The span from the start of `first` to the end of `last`.
    pub fn merge(first: &Range, last: &Range) -> (range: Self)
        ensures
            range == (Range { start: first.start, end_inclusive: last.end_inclusive }),
    {
        Range { start: first.start, end_inclusive: last.end_inclusive }
    }
}

impl Default for Range {
    fn default() -> (range: Self)
        ensures
            range == spec_default_range(),
    {
        Range { start: Position::default(), end_inclusive: Position::default() }
    }
}

/// The empty span at the beginning of the text.
pub open spec fn spec_default_range() -> Range {
    Range {
        start: Position { index: 0, line: 0, column: 0 },
        end_inclusive: Position { index: 0, line: 0, column: 0 },
    }
}

} // verus!
