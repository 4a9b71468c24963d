use vstd::prelude::*;

use crate::enums::TokenT;

verus! {

/// A 1-based source position: the row and column of a token's first
/// character. The column resets and the row increments on each newline
/// the cursor consumes.
#[derive(Clone, Copy, PartialEq, Eq, Structural, Debug)]
pub struct Location {
    pub row: usize,
    pub col: usize,
}

impl Location {
    /// The zero location, used before a token has been placed.
    pub fn empty() -> (r: Location)
        ensures
            r.row == 0,
            r.col == 0,
    {
        Location { row: 0, col: 0 }
    }

    /// Moves the location to the given row and column.
    pub fn change_loc(&mut self, row: usize, col: usize)
        ensures
            final(self).row == row,
            final(self).col == col,
    {
        self.row = row;
        self.col = col;
    }
}

/// One token: its raw text, its kind, the running length of the text,
/// and the location of its first character.
#[derive(Clone, Debug)]
pub struct Token {
    pub value: Vec<u8>,
    pub token_type: TokenT,
    pub size: usize,
    pub loc: Location,
}

impl Token {
    /// The token is well formed when its recorded size is the length of
    /// its text.
    pub open spec fn wf(self) -> bool {
        self.size == self.value@.len()
    }

    /// An empty token of the unrecognized kind, ready to be filled.
    pub fn empty() -> (r: Token)
        ensures
            r.wf(),
            r.value@ == Seq::<u8>::empty(),
            r.token_type == TokenT::NONE__,
            r.size == 0,
            r.loc.row == 0,
            r.loc.col == 0,
    {
        Token { value: Vec::new(), token_type: TokenT::NONE__, size: 0, loc: Location::empty() }
    }

    /// Appends one byte to the token's text.
    pub fn write(&mut self, c: u8)
        requires
            old(self).wf(),
        ensures
            final(self).wf(),
            final(self).value@ == old(self).value@.push(c),
            final(self).size == old(self).size + 1,
            final(self).token_type == old(self).token_type,
            final(self).loc == old(self).loc,
    {
        self.value.push(c);
        self.size = self.value.len();
    }
}

} // verus!
