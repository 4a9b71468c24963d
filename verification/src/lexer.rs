use vstd::prelude::*;

use crate::enums::{
    make_token_table, special_kind, TokenT, TokenTable, DIV, DQUOTE, EQUAL, ESCAPE, FF, GT, MINUS,
    NL, NULLC, OPAR, RE, SPACE, SQUOTE, TAB,
};
use crate::errors::{make_error, ErrorKind, InterpError};
use crate::lexspec::{
    col_spec, comment_end, esc_map, ident_end, is_alnum_b, is_alpha_b, is_digit_b, is_ws_nonl,
    keyword_kind, kw_bool, kw_define, kw_else, kw_false, kw_i64, kw_if, kw_int, kw_string,
kw_true, lemma_comment_end_bounds,  lemma_ident_end_bounds, lemma_num_end_bounds,
    lemma_row_col_bounds, lemma_skip_ws_bounds, lemma_str_scan_bounds, num_end, row_spec,
    lemma_spec_next_advances, scan_with_prefix, skip_ws, spec_next, str_scan, LexStep,
    ScanRes, SpecTok,
};
use crate::token::Token;

verus! {

/// The byte at position `i`, or 0 past the end of the buffer.
pub open spec fn char_at(s: Seq<u8>, i: int) -> u8 {
    if 0 <= i < s.len() {
        s[i]
    } else {
        NULLC
    }
}

/// The tokenizer: a cursor over the in-memory source buffer, tracking
/// the 1-based row and column of the cursor position.
pub struct KasperLexer {
    pub source: Vec<u8>,
    pub cur: usize,
    pub row: usize,
    pub col: usize,
    pub size: usize,
    pub token_table: TokenTable,
}

impl KasperLexer {
    /// The lexer's internal consistency: the recorded size is the buffer
    /// length, the cursor stays within the buffer, and the row and
    /// column are the ones determined by the cursor position.
    pub open spec fn wf(self) -> bool {
        &&& self.size == self.source@.len()
        &&& self.size < usize::MAX
        &&& self.cur <= self.size
        &&& self.row == row_spec(self.source@, self.cur as int)
        &&& self.col == col_spec(self.source@, self.cur as int)
    }

    /// Builds a lexer over an in-memory source buffer.
    pub fn new(source: Vec<u8>) -> (r: KasperLexer)
        requires
            source@.len() < usize::MAX,
        ensures
            r.wf(),
            r.source@ == source@,
            r.cur == 0,
            r.row == 1,
            r.col == 1,
    {
        let size: usize = source.len();
        KasperLexer { source, cur: 0, row: 1, col: 1, size, token_table: make_token_table() }
    }

    /// The byte at the given position, or 0 past the buffer end.
    pub fn get_char(&self, index: usize) -> (r: u8)
        requires
            self.size == self.source@.len(),
        ensures
            r == char_at(self.source@, index as int),
    {
        if index < self.size {
            self.source[index]
        } else {
            NULLC
        }
    }

    /// The byte just before the cursor (the first byte at the start).
    pub fn get_prev(&self) -> (r: u8)
        requires
            self.size == self.source@.len(),
        ensures
            self.cur > 0 ==> r == char_at(self.source@, self.cur - 1),
            self.cur == 0 ==> r == char_at(self.source@, 0),
    {
        if self.cur > 0 {
            self.get_char(self.cur - 1)
        } else {
            self.get_char(0)
        }
    }

    /// The byte under the cursor.
    pub fn get_current(&self) -> (r: u8)
        requires
            self.size == self.source@.len(),
        ensures
            r == char_at(self.source@, self.cur as int),
    {
        self.get_char(self.cur)
    }

    /// The byte just past the cursor.
    pub fn get_next(&self) -> (r: u8)
        requires
            self.size == self.source@.len(),
            self.cur < usize::MAX,
        ensures
            r == char_at(self.source@, self.cur + 1),
    {
        self.get_char(self.cur + 1)
    }

    /// Whether any input remains.
    pub fn is_not_empty(&self) -> (r: bool)
        ensures
            r == (self.cur < self.size),
    {
        self.cur < self.size
    }

    /// Advances the cursor one byte (a no-op at the buffer end),
    /// updating the row and column, and returns the new cursor.
    pub fn chop(&mut self) -> (r: usize)
        requires
            old(self).wf(),
        ensures
            final(self).wf(),
            final(self).source@ == old(self).source@,
            final(self).size == old(self).size,
            old(self).cur < old(self).size ==> final(self).cur == old(self).cur + 1,
            old(self).cur >= old(self).size ==> final(self).cur == old(self).cur,
            r == final(self).cur,
    {
        proof {
            lemma_row_col_bounds(self.source@, self.cur as int);
        }
        if self.cur < self.size {
            self.cur = self.cur + 1;
            let c: u8 = self.get_current();
            if c == NL {
                self.row = self.row + 1;
                self.col = 0;
            } else {
                self.col = self.col + 1;
            }
        }
        self.cur
    }

    /// Skips whitespace other than newline, leaving the cursor at the
    /// first non-skippable byte.
    pub fn trim_spaces_left(&mut self)
        requires
            old(self).wf(),
        ensures
            final(self).wf(),
            final(self).source@ == old(self).source@,
            final(self).size == old(self).size,
            final(self).cur == skip_ws(old(self).source@, old(self).cur as int),
    {
        let ghost s = self.source@;
        let ghost p0 = self.cur as int;
        loop
            invariant
                self.wf(),
                self.source@ == s,
                0 <= p0 <= self.cur as int,
                skip_ws(s, self.cur as int) == skip_ws(s, p0),
            ensures
                self.wf(),
                self.source@ == s,
                self.size == s.len(),
                self.cur as int == skip_ws(s, p0),
            decreases self.size - self.cur,
        {
            if !(self.cur < self.size) {
                break;
            }
            let b: u8 = self.source[self.cur];
            if b == NL || !(b == SPACE || b == TAB || b == RE || b == FF) {
                break;
            }
            self.chop();
        }
    }

    /// Appends one byte to the token, stamps its kind, and advances.
    pub fn write_to_token(&mut self, token: &mut Token, type_: TokenT, c: u8)
        requires
            old(self).wf(),
            old(token).wf(),
        ensures
            final(self).wf(),
            final(token).wf(),
            final(self).source@ == old(self).source@,
            final(self).size == old(self).size,
            old(self).cur < old(self).size ==> final(self).cur == old(self).cur + 1,
            old(self).cur >= old(self).size ==> final(self).cur == old(self).cur,
            final(token).value@ == old(token).value@.push(c),
            final(token).token_type == type_,
            final(token).loc == old(token).loc,
    {
        token.write(c);
        token.token_type = type_;
        self.chop();
    }

    /// Resolves a character from the lookup table: the two-character
    /// arrows by peeking one byte ahead, otherwise the single-character
    /// token; an opening quote only stamps the kind.
    pub fn write_to_special_token(&mut self, token: &mut Token, c: u8)
        requires
            old(self).wf(),
            old(token).wf(),
            special_kind(c) is Some,
            c == char_at(old(self).source@, old(self).cur as int),
            old(self).cur < old(self).size,
        ensures
            final(self).wf(),
            final(token).wf(),
            final(self).source@ == old(self).source@,
            final(self).size == old(self).size,
            final(token).loc == old(token).loc,
            ({
                let s = old(self).source@;
                let p = old(self).cur as int;
                if c == MINUS && p + 1 < s.len() && s[p + 1] == GT {
                    final(token).token_type == TokenT::THIN_ARROW__ && final(token).value@ == old(
                        token,
                    ).value@ + seq![MINUS, GT] && final(self).cur == p + 2
                } else if c == EQUAL && p + 1 < s.len() && s[p + 1] == GT {
                    final(token).token_type == TokenT::FAT_ARROW__ && final(token).value@ == old(
                        token,
                    ).value@ + seq![EQUAL, GT] && final(self).cur == p + 2
                } else if c == DQUOTE {
                    final(token).token_type == TokenT::DQUOTE__ && final(token).value@ == old(
                        token,
                    ).value@ && final(self).cur == p + 1
                } else {
                    final(token).token_type == special_kind(c) -> 0 && final(token).value@ == old(
                        token,
                    ).value@.push(c) && final(self).cur == p + 1
                }
            }),
    {
        let t: TokenT = match self.token_table.get(c) {
            Some(t) => t,
            None => TokenT::NONE__,
        };
        if t == TokenT::MINUS__ {
            if self.get_next() == GT {
                token.write(c);
                self.chop();
                self.write_to_token(token, TokenT::THIN_ARROW__, GT);
                proof {
                    assert(old(token).value@.push(MINUS).push(GT) =~= old(token).value@
                        + seq![MINUS, GT]);
                }
                return ;
            }
        }
        if t == TokenT::EQUAL__ {
            if self.get_next() == GT {
                token.write(c);
                self.chop();
                self.write_to_token(token, TokenT::FAT_ARROW__, GT);
                proof {
                    assert(old(token).value@.push(EQUAL).push(GT) =~= old(token).value@
                        + seq![EQUAL, GT]);
                }
                return ;
            }
        }
        if t != TokenT::DQUOTE__ {
            self.write_to_token(token, t, c);
            return ;
        }
        token.token_type = t;
        self.chop();
    }

    /// After a leading slash, turns the token into a line comment when a
    /// second slash follows, consuming through the end of the line.
    pub fn handle_comment(&mut self, token: &mut Token)
        requires
            old(self).wf(),
            old(token).wf(),
        ensures
            final(self).wf(),
            final(token).wf(),
            final(self).source@ == old(self).source@,
            final(self).size == old(self).size,
            final(token).loc == old(token).loc,
            ({
                let s = old(self).source@;
                let p = old(self).cur as int;
                if char_at(s, p) == DIV {
                    final(token).token_type == TokenT::COMMENT__ && final(token).value@ == old(
                        token,
                    ).value@ + s.subrange(p, comment_end(s, p)) && final(self).cur == comment_end(
                        s,
                        p,
                    )
                } else {
                    *final(token) == *old(token) && final(self).cur == old(self).cur
                }
            }),
    {
        let ghost s = self.source@;
        let ghost p0 = self.cur as int;
        let c: u8 = self.get_current();
        if c == DIV {
            token.token_type = TokenT::COMMENT__;
            proof {
                lemma_comment_end_bounds(s, p0);
            }
            loop
                invariant
                    self.wf(),
                    self.source@ == s,
                    token.wf(),
                    token.loc == old(token).loc,
                    token.token_type == TokenT::COMMENT__,
                    0 <= p0 <= self.cur as int <= s.len(),
                    comment_end(s, self.cur as int) == comment_end(s, p0),
                    token.value@ == old(token).value@ + s.subrange(p0, self.cur as int),
                ensures
                    self.wf(),
                    self.source@ == s,
                    token.wf(),
                    token.loc == old(token).loc,
                    token.token_type == TokenT::COMMENT__,
                    self.cur as int == comment_end(s, p0),
                    token.value@ == old(token).value@ + s.subrange(p0, self.cur as int),
                decreases self.size - self.cur,
            {
                if !(self.cur < self.size) {
                    break;
                }
                let b: u8 = self.source[self.cur];
                if b == NL {
                    break;
                }
                token.write(b);
                self.chop();
                proof {
                    assert(s.subrange(p0, self.cur as int) =~= s.subrange(p0, self.cur - 1).push(
                        s[self.cur - 1],
                    ));
                }
            }
        } else {
            proof {
                assert(old(token).value@ + s.subrange(p0, p0) =~= old(token).value@);
            }
        }
    }

    /// Collects an identifier run into the token, stamping it `VARNAME`.
    pub fn collect_str(&mut self, token: &mut Token)
        requires
            old(self).wf(),
            old(token).wf(),
        ensures
            final(self).wf(),
            final(token).wf(),
            final(self).source@ == old(self).source@,
            final(self).size == old(self).size,
            final(token).loc == old(token).loc,
            final(token).token_type == TokenT::VARNAME__,
            final(self).cur == ident_end(old(self).source@, old(self).cur as int),
            final(token).value@ == old(token).value@ + old(self).source@.subrange(
                old(self).cur as int,
                ident_end(old(self).source@, old(self).cur as int),
            ),
    {
        let ghost s = self.source@;
        let ghost p0 = self.cur as int;
        token.token_type = TokenT::VARNAME__;
        proof {
            lemma_ident_end_bounds(s, p0);
            assert(old(token).value@ + s.subrange(p0, p0) =~= old(token).value@);
        }
        loop
            invariant
                self.wf(),
                self.source@ == s,
                token.wf(),
                token.loc == old(token).loc,
                token.token_type == TokenT::VARNAME__,
                0 <= p0 <= self.cur as int <= s.len(),
                ident_end(s, self.cur as int) == ident_end(s, p0),
                token.value@ == old(token).value@ + s.subrange(p0, self.cur as int),
            ensures
                self.wf(),
                self.source@ == s,
                token.wf(),
                token.loc == old(token).loc,
                token.token_type == TokenT::VARNAME__,
                self.cur as int == ident_end(s, p0),
                token.value@ == old(token).value@ + s.subrange(p0, self.cur as int),
            decreases self.size - self.cur,
        {
            if !(self.cur < self.size) {
                break;
            }
            let b: u8 = self.source[self.cur];
            if !((65 <= b && b <= 90) || (97 <= b && b <= 122) || (48 <= b && b <= 57)) {
                break;
            }
            token.write(b);
            self.chop();
            proof {
                assert(s.subrange(p0, self.cur as int) =~= s.subrange(p0, self.cur - 1).push(
                    s[self.cur - 1],
                ));
            }
        }
    }

    /// Collects a digit run into the token, stamping it `NUMBER`.
    pub fn collect_number(&mut self, token: &mut Token)
        requires
            old(self).wf(),
            old(token).wf(),
        ensures
            final(self).wf(),
            final(token).wf(),
            final(self).source@ == old(self).source@,
            final(self).size == old(self).size,
            final(token).loc == old(token).loc,
            final(token).token_type == TokenT::NUMBER__,
            final(self).cur == num_end(old(self).source@, old(self).cur as int),
            final(token).value@ == old(token).value@ + old(self).source@.subrange(
                old(self).cur as int,
                num_end(old(self).source@, old(self).cur as int),
            ),
    {
        let ghost s = self.source@;
        let ghost p0 = self.cur as int;
        token.token_type = TokenT::NUMBER__;
        proof {
            lemma_num_end_bounds(s, p0);
            assert(old(token).value@ + s.subrange(p0, p0) =~= old(token).value@);
        }
        loop
            invariant
                self.wf(),
                self.source@ == s,
                token.wf(),
                token.loc == old(token).loc,
                token.token_type == TokenT::NUMBER__,
                0 <= p0 <= self.cur as int <= s.len(),
                num_end(s, self.cur as int) == num_end(s, p0),
                token.value@ == old(token).value@ + s.subrange(p0, self.cur as int),
            ensures
                self.wf(),
                self.source@ == s,
                token.wf(),
                token.loc == old(token).loc,
                token.token_type == TokenT::NUMBER__,
                self.cur as int == num_end(s, p0),
                token.value@ == old(token).value@ + s.subrange(p0, self.cur as int),
            decreases self.size - self.cur,
        {
            if !(self.cur < self.size) {
                break;
            }
            let b: u8 = self.source[self.cur];
            if !(48 <= b && b <= 57) {
                break;
            }
            token.write(b);
            self.chop();
            proof {
                assert(s.subrange(p0, self.cur as int) =~= s.subrange(p0, self.cur - 1).push(
                    s[self.cur - 1],
                ));
            }
        }
    }

    /// Places the token's location, then resolves the byte under the
    /// cursor when it is special punctuation, a comment, a newline or
    /// unrecognized input; identifier and number starts are left for the
    /// caller to collect.
    pub fn match_current(&mut self, token: &mut Token)
        requires
            old(self).wf(),
            old(token).wf(),
            old(token).value@.len() == 0,
            old(token).token_type == TokenT::NONE__,
        ensures
            final(self).wf(),
            final(token).wf(),
            final(self).source@ == old(self).source@,
            final(self).size == old(self).size,
            final(token).loc.row as int == row_spec(old(self).source@, old(self).cur as int),
            final(token).loc.col as int == col_spec(old(self).source@, old(self).cur as int),
            ({
                let s = old(self).source@;
                let p = old(self).cur as int;
                let b = char_at(s, p);
                if p >= s.len() || is_ws_nonl(b) || is_alpha_b(b) || is_digit_b(b) {
                    final(token).value@ == Seq::<u8>::empty() && final(token).token_type
                        == TokenT::NONE__ && final(self).cur == old(self).cur
                } else if b == NL {
                    final(token).token_type == TokenT::NL__ && final(token).value@ == seq![NL]
                        && final(self).cur == p + 1
                } else if b == MINUS && p + 1 < s.len() && s[p + 1] == GT {
                    final(token).token_type == TokenT::THIN_ARROW__ && final(token).value@
                        == seq![MINUS, GT] && final(self).cur == p + 2
                } else if b == EQUAL && p + 1 < s.len() && s[p + 1] == GT {
                    final(token).token_type == TokenT::FAT_ARROW__ && final(token).value@
                        == seq![EQUAL, GT] && final(self).cur == p + 2
                } else if b == DIV && p + 1 < s.len() && s[p + 1] == DIV {
                    final(token).token_type == TokenT::COMMENT__ && final(token).value@
                        == s.subrange(p, comment_end(s, p)) && final(self).cur == comment_end(s, p)
                } else if b == DQUOTE {
                    final(token).token_type == TokenT::DQUOTE__ && final(token).value@
                        == Seq::<u8>::empty() && final(self).cur == p + 1
                } else if special_kind(b) is Some {
                    final(token).token_type == special_kind(b) -> 0 && final(token).value@
                        == seq![b] && final(self).cur == p + 1
                } else {
                    final(token).token_type == TokenT::NONE__ && final(token).value@ == seq![b]
                        && final(self).cur == p + 1
                }
            }),
    {
        let ghost s = self.source@;
        let ghost p = self.cur as int;
        let c: u8 = self.get_current();
        let row: usize = self.row;
        let col: usize = self.col;
        token.loc.change_loc(row, col);
        if !self.is_not_empty() {
            return ;
        }
        if c == NL {
            self.write_to_token(token, TokenT::NL__, NL);
            proof {
                assert(Seq::<u8>::empty().push(NL) =~= seq![NL]);
            }
            return ;
        }
        if self.token_table.contains(c) {
            self.write_to_special_token(token, c);
            if token.token_type == TokenT::DIV__ {
                proof {
                    assert(char_at(s, p) == DIV && !(p + 1 < s.len() && s[p + 1] == DIV)
                        ==> char_at(s, p + 1) != DIV);
                    assert(comment_end(s, p) == comment_end(s, p + 1) || s[p] == NL);
                }
                let ghost val_before = token.value@;
                self.handle_comment(token);
                proof {
                    lemma_comment_end_bounds(s, p);
                    lemma_comment_end_bounds(s, p + 1);
                    if char_at(s, p + 1) == DIV {
                        assert(s[p] == DIV && s[p] != NL);
                        assert(comment_end(s, p) == comment_end(s, p + 1));
                        assert(token.value@ =~= s.subrange(p, comment_end(s, p)));
                    }
                }
            }
            proof {
                if special_kind(char_at(s, p)) is Some {
                    assert(Seq::<u8>::empty().push(char_at(s, p)) =~= seq![char_at(s, p)]);
                }
            }
            return ;
        }
        if (65 <= c && c <= 90) || (97 <= c && c <= 122) || (48 <= c && c <= 57) {
            return ;
        }
        if c == SPACE || c == TAB || c == RE || c == FF {
            return ;
        }
        token.write(c);
        token.token_type = TokenT::NONE__;
        self.chop();
        proof {
            assert(Seq::<u8>::empty().push(char_at(s, p)) =~= seq![char_at(s, p)]);
        }
    }

    /// Decodes a string literal body, the cursor sitting just past the
    /// opening quote, into the token; fails on a bad escape or when the
    /// buffer ends before the closing quote.
    pub fn collect_string_literal(&mut self, token: &mut Token) -> (r: Result<(), InterpError>)
        requires
            old(self).wf(),
            old(token).wf(),
            old(token).value@.len() == 0,
        ensures
            final(self).wf(),
            final(self).source@ == old(self).source@,
            final(self).size == old(self).size,
            ({
                let s = old(self).source@;
                let p = old(self).cur as int;
                match str_scan(s, p) {
                    ScanRes::Done { text, end } => match r {
                        Ok(_) => final(token).wf() && final(token).token_type == TokenT::STRING__
                            && final(token).value@ == text && final(token).loc == old(token).loc
                            && final(self).cur == end,
                        Err(_) => false,
                    },
                    _ => match r {
                        Ok(_) => false,
                        Err(e) => e.kind == ErrorKind::LexError && e.row == old(token).loc.row
                            && e.col == old(token).loc.col,
                    },
                }
            }),
    {
        let ghost s = self.source@;
        let ghost p0 = self.cur as int;
        proof {
            match str_scan(s, p0) {
                ScanRes::Done { text, end } => {
                    assert(token.value@ + text =~= text);
                },
                _ => {},
            }
        }
        loop
            invariant
                self.wf(),
                self.source@ == s,
                s == old(self).source@,
                self.size == old(self).size,
                p0 == old(self).cur as int,
                token.wf(),
                token.loc == old(token).loc,
                0 <= p0 <= self.cur as int <= s.len(),
                str_scan(s, p0) == scan_with_prefix(token.value@, str_scan(s, self.cur as int)),
            decreases self.size - self.cur,
        {
            if !(self.cur < self.size) {
                // The buffer ended before the closing quote.
                return Err(
                    make_error(ErrorKind::LexError, token.loc.row, token.loc.col, token.value.clone()),
                );
            }
            let b: u8 = self.source[self.cur];
            if b == DQUOTE {
                token.token_type = TokenT::STRING__;
                self.chop();
                proof {
                    assert(token.value@ + Seq::<u8>::empty() =~= token.value@);
                }
                return Ok(());
            }
            if b == ESCAPE {
                if self.cur + 1 >= self.size {
                    return Err(
                        make_error(ErrorKind::LexError, token.loc.row, token.loc.col, token.value.clone()),
                    );
                }
                let e: u8 = self.source[self.cur + 1];
                match esc_lookup(e) {
                    Some(c2) => {
                        let ghost vpre = token.value@;
                        let ghost cpre = self.cur as int;
                        token.write(c2);
                        self.chop();
                        self.chop();
                        proof {
                            match str_scan(s, cpre + 2) {
                                ScanRes::Done { text, end } => {
                                    assert(vpre + (seq![c2] + text) =~= vpre.push(c2) + text);
                                },
                                _ => {},
                            }
                        }
                    },
                    None => {
                        // An escape character outside the supported set.
                        return Err(
                            make_error(
                                ErrorKind::LexError,
                                token.loc.row,
                                token.loc.col,
                                token.value.clone(),
                            ),
                        );
                    },
                }
            } else {
                let ghost vpre = token.value@;
                let ghost cpre = self.cur as int;
                token.write(b);
                self.chop();
                proof {
                    match str_scan(s, cpre + 1) {
                        ScanRes::Done { text, end } => {
                            assert(vpre + (seq![b] + text) =~= vpre.push(b) + text);
                        },
                        _ => {},
                    }
                }
            }
        }
    }

    /// Produces the next token of the source, or a lexing failure. At
    /// the buffer end the result is the empty token of kind `NONE__`.
    pub fn next(&mut self) -> (r: Result<Token, InterpError>)
        requires
            old(self).wf(),
        ensures
            final(self).wf(),
            final(self).source@ == old(self).source@,
            final(self).size == old(self).size,
            ({
                let s = old(self).source@;
                let p = old(self).cur as int;
                match spec_next(s, p) {
                    LexStep::Tok(t) => match r {
                        Ok(tok) => tok.wf() && tok.token_type == t.kind && tok.value@ == t.text
                            && tok.loc.row as int == row_spec(s, t.start) && tok.loc.col as int
                            == col_spec(s, t.start) && final(self).cur == t.end,
                        Err(_) => false,
                    },
                    LexStep::Fail { kind, at } => match r {
                        Ok(_) => false,
                        Err(e) => e.kind == kind && e.row as int == row_spec(s, at) && e.col as int
                            == col_spec(s, at),
                    },
                }
            }),
            old(self).cur < old(self).size && r is Ok ==> final(self).cur > old(self).cur,
    {
        let ghost s = self.source@;
        let ghost p = self.cur as int;
        proof {
            lemma_spec_next_advances(s, p);
            lemma_skip_ws_bounds(s, p);
        }
        self.trim_spaces_left();
        let ghost q = self.cur as int;
        let mut token = Token::empty();
        self.match_current(&mut token);
        if token.token_type == TokenT::DQUOTE__ {
            match self.collect_string_literal(&mut token) {
                Ok(_) => {
                    return Ok(token);
                },
                Err(e) => {
                    return Err(e);
                },
            }
        }
        if token.size > 0 {
            return Ok(token);
        }
        // Nothing matched yet: the buffer end, or the start of an
        // identifier or number run.
        let c: u8 = self.get_current();
        if (65 <= c && c <= 90) || (97 <= c && c <= 122) {
            self.collect_str(&mut token);
            proof {
                assert(Seq::<u8>::empty() + s.subrange(q, ident_end(s, q)) =~= s.subrange(
                    q,
                    ident_end(s, q),
                ));
            }
            match kw_tag(&token.value) {
                Some(k) => {
                    token.token_type = k;
                    return Ok(token);
                },
                None => {
                    if self.get_current() == OPAR {
                        token.token_type = TokenT::FUNC_CALL__;
                        self.chop();
                    }
                    return Ok(token);
                },
            }
        }
        if 48 <= c && c <= 57 {
            self.collect_number(&mut token);
            proof {
                assert(Seq::<u8>::empty() + s.subrange(q, num_end(s, q)) =~= s.subrange(
                    q,
                    num_end(s, q),
                ));
            }
            return Ok(token);
        }
        Ok(token)
    }
}

/// The byte an escape character decodes to, if it is a supported one.
pub fn esc_lookup(c: u8) -> (r: Option<u8>)
    ensures
        r == esc_map(c),
{
    if c == DQUOTE {
        Some(DQUOTE)
    } else if c == SQUOTE {
        Some(SQUOTE)
    } else if c == ESCAPE {
        Some(ESCAPE)
    } else if c == 110 {
        Some(NL)
    } else if c == 116 {
        Some(TAB)
    } else if c == 114 {
        Some(RE)
    } else if c == 48 {
        Some(NULLC)
    } else {
        None
    }
}

/// Matches an identifier's text against the reserved-word set.
pub fn kw_tag(v: &Vec<u8>) -> (r: Option<TokenT>)
    ensures
        r == keyword_kind(v@),
{
    let n: usize = v.len();
    if n == 6 && v[0] == 100 && v[1] == 101 && v[2] == 102 && v[3] == 105 && v[4] == 110 && v[5]
        == 101 {
        proof {
            assert(v@ =~= kw_define());
        }
        return Some(TokenT::KEY_WORD_DEFINE__);
    }
    if n == 3 && v[0] == 105 && v[1] == 110 && v[2] == 116 {
        proof {
            assert(v@ =~= kw_int());
        }
        return Some(TokenT::INT_T);
    }
    if n == 6 && v[0] == 115 && v[1] == 116 && v[2] == 114 && v[3] == 105 && v[4] == 110 && v[5]
        == 103 {
        proof {
            assert(v@ =~= kw_string());
        }
        return Some(TokenT::STRING_T);
    }
    if n == 3 && v[0] == 105 && v[1] == 54 && v[2] == 52 {
        proof {
            assert(v@ =~= kw_i64());
        }
        return Some(TokenT::INT_T_64);
    }
    if n == 4 && v[0] == 98 && v[1] == 111 && v[2] == 111 && v[3] == 108 {
        proof {
            assert(v@ =~= kw_bool());
        }
        return Some(TokenT::BOOL_T);
    }
    if n == 4 && v[0] == 84 && v[1] == 114 && v[2] == 117 && v[3] == 101 {
        proof {
            assert(v@ =~= kw_true());
        }
        return Some(TokenT::BOOL_TRUE__);
    }
    if n == 5 && v[0] == 70 && v[1] == 97 && v[2] == 108 && v[3] == 115 && v[4] == 101 {
        proof {
            assert(v@ =~= kw_false());
        }
        return Some(TokenT::BOOL_FALSE__);
    }
    if n == 2 && v[0] == 105 && v[1] == 102 {
        proof {
            assert(v@ =~= kw_if());
        }
        return Some(TokenT::IF__);
    }
    if n == 4 && v[0] == 101 && v[1] == 108 && v[2] == 115 && v[3] == 101 {
        proof {
            assert(v@ =~= kw_else());
        }
        return Some(TokenT::ELSE__);
    }
    proof {
        if v@ == kw_define() {
            assert(v@.len() == 6 && v@[0] == 100 && v@[1] == 101 && v@[2] == 102 && v@[3] == 105
                && v@[4] == 110 && v@[5] == 101);
        }
        if v@ == kw_int() {
            assert(v@.len() == 3 && v@[0] == 105 && v@[1] == 110 && v@[2] == 116);
        }
        if v@ == kw_string() {
            assert(v@.len() == 6 && v@[0] == 115 && v@[1] == 116 && v@[2] == 114 && v@[3] == 105
                && v@[4] == 110 && v@[5] == 103);
        }
        if v@ == kw_i64() {
            assert(v@.len() == 3 && v@[0] == 105 && v@[1] == 54 && v@[2] == 52);
        }
        if v@ == kw_bool() {
            assert(v@.len() == 4 && v@[0] == 98 && v@[1] == 111 && v@[2] == 111 && v@[3] == 108);
        }
        if v@ == kw_true() {
            assert(v@.len() == 4 && v@[0] == 84 && v@[1] == 114 && v@[2] == 117 && v@[3] == 101);
        }
        if v@ == kw_false() {
            assert(v@.len() == 5 && v@[0] == 70 && v@[1] == 97 && v@[2] == 108 && v@[3] == 115
                && v@[4] == 101);
        }
        if v@ == kw_if() {
            assert(v@.len() == 2 && v@[0] == 105 && v@[1] == 102);
        }
        if v@ == kw_else() {
            assert(v@.len() == 4 && v@[0] == 101 && v@[1] == 108 && v@[2] == 115 && v@[3] == 101);
        }
    }
    None
}

} // verus!
