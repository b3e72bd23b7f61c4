//! Places in the source text.

use vstd::prelude::*;

verus! {

/// The byte that ends a line.
pub const LINE_FEED: u8 = 0x0a;

/// A place in the source text: a byte offset, the line it lies on and the
/// column within that line. Lines and columns are counted from zero, in
/// bytes.
#[derive(Copy, Clone, Debug, PartialEq, Eq, Structural)]
pub struct Position {
    pub offset: usize,
    pub line: usize,
    pub column: usize,
}

/// The number of line feeds among the first `offset` bytes of `source`.
pub open spec fn line_of(source: Seq<u8>, offset: nat) -> nat
    decreases offset,
{
    if offset == 0 || offset > source.len() {
        0
    } else if source[offset - 1] == LINE_FEED {
        line_of(source, (offset - 1) as nat) + 1
    } else {
        line_of(source, (offset - 1) as nat)
    }
}

/// The number of bytes between the last line feed before `offset` (or the
/// start of `source`, if there is none) and `offset`.
pub open spec fn column_of(source: Seq<u8>, offset: nat) -> nat
    decreases offset,
{
    if offset == 0 || offset > source.len() {
        0
    } else if source[offset - 1] == LINE_FEED {
        0
    } else {
        column_of(source, (offset - 1) as nat) + 1
    }
}

/// The place of byte `offset` of `source`.
pub open spec fn position_at(source: Seq<u8>, offset: nat) -> Position {
    Position {
        offset: offset as usize,
        line: line_of(source, offset) as usize,
        column: column_of(source, offset) as usize,
    }
}

/// Neither the line nor the column of a place exceeds its offset.
pub proof fn lemma_position_bounds(source: Seq<u8>, offset: nat)
    ensures
        line_of(source, offset) <= offset,
        column_of(source, offset) <= offset,
    decreases offset,
{
    if offset > 0 && offset <= source.len() {
        lemma_position_bounds(source, (offset - 1) as nat);
    }
}

impl Position {
    /// Line and column do not exceed the offset, as holds of every place in
    /// a text.
    pub open spec fn valid(self) -> bool {
        self.line <= self.offset && self.column <= self.offset
    }

    /// The place one byte further on, when the byte passed over is `byte`.
    pub open spec fn stepped(self, byte: u8) -> Position {
        if byte == LINE_FEED {
            Position {
                offset: (self.offset + 1) as usize,
                line: (self.line + 1) as usize,
                column: 0,
            }
        } else {
            Position {
                offset: (self.offset + 1) as usize,
                line: self.line,
                column: (self.column + 1) as usize,
            }
        }
    }

    /// The place where every text starts.
    pub fn origin() -> (place: Position)
        ensures
            place == (Position { offset: 0, line: 0, column: 0 }),
            place.valid(),
    {
        Position { offset: 0, line: 0, column: 0 }
    }

    /// The place one byte further on, when the byte passed over is `byte`.
    pub fn step(self, byte: u8) -> (next: Position)
        requires
            self.valid(),
            self.offset < usize::MAX,
        ensures
            next == self.stepped(byte),
            next.valid(),
    {
        if byte == LINE_FEED {
            Position { offset: self.offset + 1, line: self.line + 1, column: 0 }
        } else {
            Position { offset: self.offset + 1, line: self.line, column: self.column + 1 }
        }
    }
}

/// Passing over one byte of `source` leads from its place to the next.
pub proof fn lemma_position_step(source: Seq<u8>, offset: nat)
    requires
        offset < source.len() <= usize::MAX,
    ensures
        position_at(source, offset + 1) == position_at(source, offset).stepped(
            source[offset as int],
        ),
        position_at(source, offset).valid(),
        position_at(source, offset + 1).valid(),
{
    lemma_position_bounds(source, offset);
    lemma_position_bounds(source, offset + 1);
}

} // verus!
