use vstd::prelude::*;

use crate::enums::{
    special_kind, TokenT, DIV, DQUOTE, EQUAL, ESCAPE, FF, GT, MINUS, NL, NULLC, OPAR, RE, SPACE,
    SQUOTE, TAB,
};
use crate::errors::ErrorKind;

verus! {

// ---------------------------------------------------------------------
// Byte classification
// ---------------------------------------------------------------------

/// ASCII whitespace other than newline; the tokenizer skips these, while
/// a newline is a token of its own (it terminates a statement).
pub open spec fn is_ws_nonl(b: u8) -> bool {
    b == SPACE || b == TAB || b == RE || b == FF
}

pub open spec fn is_digit_b(b: u8) -> bool {
    48 <= b <= 57
}

pub open spec fn is_alpha_b(b: u8) -> bool {
    (65 <= b <= 90) || (97 <= b <= 122)
}

/// Bytes that may continue an identifier.
pub open spec fn is_alnum_b(b: u8) -> bool {
    is_alpha_b(b) || is_digit_b(b)
}

// ---------------------------------------------------------------------
// Source locations as a function of the cursor
// ---------------------------------------------------------------------

/// The 1-based row of cursor position `p`: the row starts at 1 and
/// increments each time the cursor lands on a newline byte.
pub open spec fn row_spec(s: Seq<u8>, p: int) -> int
    decreases p,
{
    if p <= 0 {
        1
    } else {
        row_spec(s, p - 1) + if p < s.len() && s[p] == NL {
            1int
        } else {
            0int
        }
    }
}

/// The column of cursor position `p`: 1 at the start of the buffer, 0
/// when the cursor sits on a newline, and incrementing per byte after.
pub open spec fn col_spec(s: Seq<u8>, p: int) -> int
    decreases p,
{
    if p <= 0 {
        1
    } else if p < s.len() && s[p] == NL {
        0
    } else {
        col_spec(s, p - 1) + 1
    }
}

pub proof fn lemma_row_col_bounds(s: Seq<u8>, p: int)
    requires
        0 <= p,
    ensures
        1 <= row_spec(s, p) <= p + 1,
        0 <= col_spec(s, p) <= p + 1,
    decreases p,
{
    if p > 0 {
        lemma_row_col_bounds(s, p - 1);
    }
}

// ---------------------------------------------------------------------
// Cursor-advancing scans
// ---------------------------------------------------------------------

/// The first position at or after `p` that does not hold skippable
/// whitespace (the buffer end if none).
pub open spec fn skip_ws(s: Seq<u8>, p: int) -> int
    decreases s.len() - p,
{
    if 0 <= p < s.len() && is_ws_nonl(s[p]) {
        skip_ws(s, p + 1)
    } else {
        p
    }
}

pub proof fn lemma_skip_ws_bounds(s: Seq<u8>, p: int)
    requires
        0 <= p <= s.len(),
    ensures
        p <= skip_ws(s, p) <= s.len(),
        skip_ws(s, p) < s.len() ==> !is_ws_nonl(s[skip_ws(s, p)]),
    decreases s.len() - p,
{
    if p < s.len() && is_ws_nonl(s[p]) {
        lemma_skip_ws_bounds(s, p + 1);
    }
}

/// The end of the identifier run starting at `p`.
pub open spec fn ident_end(s: Seq<u8>, p: int) -> int
    decreases s.len() - p,
{
    if 0 <= p < s.len() && is_alnum_b(s[p]) {
        ident_end(s, p + 1)
    } else {
        p
    }
}

pub proof fn lemma_ident_end_bounds(s: Seq<u8>, p: int)
    requires
        0 <= p <= s.len(),
    ensures
        p <= ident_end(s, p) <= s.len(),
        ident_end(s, p) < s.len() ==> !is_alnum_b(s[ident_end(s, p)]),
    decreases s.len() - p,
{
    if p < s.len() && is_alnum_b(s[p]) {
        lemma_ident_end_bounds(s, p + 1);
    }
}

/// The end of the digit run starting at `p`.
pub open spec fn num_end(s: Seq<u8>, p: int) -> int
    decreases s.len() - p,
{
    if 0 <= p < s.len() && is_digit_b(s[p]) {
        num_end(s, p + 1)
    } else {
        p
    }
}

pub proof fn lemma_num_end_bounds(s: Seq<u8>, p: int)
    requires
        0 <= p <= s.len(),
    ensures
        p <= num_end(s, p) <= s.len(),
        num_end(s, p) < s.len() ==> !is_digit_b(s[num_end(s, p)]),
    decreases s.len() - p,
{
    if p < s.len() && is_digit_b(s[p]) {
        lemma_num_end_bounds(s, p + 1);
    }
}

/// The first newline at or after `p` (the buffer end if none); a line
/// comment runs to there.
pub open spec fn comment_end(s: Seq<u8>, p: int) -> int
    decreases s.len() - p,
{
    if 0 <= p < s.len() && s[p] != NL {
        comment_end(s, p + 1)
    } else {
        p
    }
}

pub proof fn lemma_comment_end_bounds(s: Seq<u8>, p: int)
    requires
        0 <= p <= s.len(),
    ensures
        p <= comment_end(s, p) <= s.len(),
        comment_end(s, p) < s.len() ==> s[comment_end(s, p)] == NL,
    decreases s.len() - p,
{
    if p < s.len() && s[p] != NL {
        lemma_comment_end_bounds(s, p + 1);
    }
}

// ---------------------------------------------------------------------
// String literals
// ---------------------------------------------------------------------

/// The byte an escape character maps to, for the supported escapes
/// `\"  \'  \\  \n  \t  \r  \0`; `None` for any other escape.
pub open spec fn esc_map(b: u8) -> Option<u8> {
    if b == DQUOTE {
        Some(DQUOTE)
    } else if b == SQUOTE {
        Some(SQUOTE)
    } else if b == ESCAPE {
        Some(ESCAPE)
    } else if b == 110 {
        Some(NL)
    } else if b == 116 {
        Some(TAB)
    } else if b == 114 {
        Some(RE)
    } else if b == 48 {
        Some(NULLC)
    } else {
        None
    }
}

/// The outcome of scanning a string literal body.
pub enum ScanRes {
    /// The decoded text and the position just past the closing quote.
    Done { text: Seq<u8>, end: int },
    /// An unsupported escape character at the given position.
    Bad { at: int },
    /// The buffer ended before the closing quote.
    Unterm,
}

pub open spec fn scan_prepend(c: u8, r: ScanRes) -> ScanRes {
    match r {
        ScanRes::Done { text, end } => ScanRes::Done { text: seq![c] + text, end },
        _ => r,
    }
}

/// Prefixes already-decoded text onto a successful scan outcome.
pub open spec fn scan_with_prefix(v: Seq<u8>, r: ScanRes) -> ScanRes {
    match r {
        ScanRes::Done { text, end } => ScanRes::Done { text: v + text, end },
        _ => r,
    }
}

/// Scans a string literal body starting just past the opening quote.
pub open spec fn str_scan(s: Seq<u8>, i: int) -> ScanRes
    decreases s.len() - i,
{
    if !(0 <= i < s.len()) {
        ScanRes::Unterm
    } else if s[i] == DQUOTE {
        ScanRes::Done { text: Seq::empty(), end: i + 1 }
    } else if s[i] == ESCAPE {
        if i + 1 >= s.len() {
            ScanRes::Unterm
        } else {
            match esc_map(s[i + 1]) {
                Some(c) => scan_prepend(c, str_scan(s, i + 2)),
                None => ScanRes::Bad { at: i + 1 },
            }
        }
    } else {
        scan_prepend(s[i], str_scan(s, i + 1))
    }
}

pub proof fn lemma_str_scan_bounds(s: Seq<u8>, i: int)
    requires
        0 <= i,
    ensures
        match str_scan(s, i) {
            ScanRes::Done { end, .. } => i < end <= s.len(),
            _ => true,
        },
    decreases s.len() - i,
{
    if 0 <= i < s.len() {
        if s[i] == DQUOTE {
        } else if s[i] == ESCAPE {
            if i + 1 < s.len() {
                lemma_str_scan_bounds(s, i + 2);
            }
        } else {
            lemma_str_scan_bounds(s, i + 1);
        }
    }
}

// ---------------------------------------------------------------------
// Keywords
// ---------------------------------------------------------------------

pub open spec fn kw_define() -> Seq<u8> {
    seq![100u8, 101u8, 102u8, 105u8, 110u8, 101u8]
}

pub open spec fn kw_int() -> Seq<u8> {
    seq![105u8, 110u8, 116u8]
}

pub open spec fn kw_string() -> Seq<u8> {
    seq![115u8, 116u8, 114u8, 105u8, 110u8, 103u8]
}

pub open spec fn kw_i64() -> Seq<u8> {
    seq![105u8, 54u8, 52u8]
}

pub open spec fn kw_bool() -> Seq<u8> {
    seq![98u8, 111u8, 111u8, 108u8]
}

pub open spec fn kw_true() -> Seq<u8> {
    seq![84u8, 114u8, 117u8, 101u8]
}

pub open spec fn kw_false() -> Seq<u8> {
    seq![70u8, 97u8, 108u8, 115u8, 101u8]
}

pub open spec fn kw_if() -> Seq<u8> {
    seq![105u8, 102u8]
}

pub open spec fn kw_else() -> Seq<u8> {
    seq![101u8, 108u8, 115u8, 101u8]
}

pub open spec fn kw_write() -> Seq<u8> {
    seq![119u8, 114u8, 105u8, 116u8, 101u8]
}

/// The reserved-word set: the kind an identifier's text resolves to, or
/// `None` when it is an ordinary name.
pub open spec fn keyword_kind(t: Seq<u8>) -> Option<TokenT> {
    if t == kw_define() {
        Some(TokenT::KEY_WORD_DEFINE__)
    } else if t == kw_int() {
        Some(TokenT::INT_T)
    } else if t == kw_string() {
        Some(TokenT::STRING_T)
    } else if t == kw_i64() {
        Some(TokenT::INT_T_64)
    } else if t == kw_bool() {
        Some(TokenT::BOOL_T)
    } else if t == kw_true() {
        Some(TokenT::BOOL_TRUE__)
    } else if t == kw_false() {
        Some(TokenT::BOOL_FALSE__)
    } else if t == kw_if() {
        Some(TokenT::IF__)
    } else if t == kw_else() {
        Some(TokenT::ELSE__)
    } else {
        None
    }
}

// ---------------------------------------------------------------------
// One tokenizer step
// ---------------------------------------------------------------------

/// A token as the specification describes it: its kind, its text, and
/// the cursor positions at which it starts and ends.
pub struct SpecTok {
    pub kind: TokenT,
    pub text: Seq<u8>,
    pub start: int,
    pub end: int,
}

/// The outcome of one tokenizer step: a token, or a lexing failure at a
/// given position.
pub enum LexStep {
    Tok(SpecTok),
    Fail { kind: ErrorKind, at: int },
}

/// One step of the tokenizer from cursor position `p`: skip whitespace,
/// then produce the token that starts there. At the buffer end the
/// result is the empty token of kind `NONE__`.
pub open spec fn spec_next(s: Seq<u8>, p: int) -> LexStep {
    let q = skip_ws(s, p);
    if q >= s.len() {
        LexStep::Tok(SpecTok { kind: TokenT::NONE__, text: Seq::empty(), start: q, end: q })
    } else {
        let b = s[q];
        if b == NL {
            LexStep::Tok(SpecTok { kind: TokenT::NL__, text: seq![NL], start: q, end: q + 1 })
        } else if b == MINUS && q + 1 < s.len() && s[q + 1] == GT {
            LexStep::Tok(
                SpecTok { kind: TokenT::THIN_ARROW__, text: seq![MINUS, GT], start: q, end: q + 2 },
            )
        } else if b == EQUAL && q + 1 < s.len() && s[q + 1] == GT {
            LexStep::Tok(
                SpecTok { kind: TokenT::FAT_ARROW__, text: seq![EQUAL, GT], start: q, end: q + 2 },
            )
        } else if b == DIV && q + 1 < s.len() && s[q + 1] == DIV {
            let e = comment_end(s, q);
            LexStep::Tok(
                SpecTok { kind: TokenT::COMMENT__, text: s.subrange(q, e), start: q, end: e },
            )
        } else if b == DQUOTE {
            match str_scan(s, q + 1) {
                ScanRes::Done { text, end } => LexStep::Tok(
                    SpecTok { kind: TokenT::STRING__, text, start: q, end },
                ),
                _ => LexStep::Fail { kind: ErrorKind::LexError, at: q },
            }
        } else if special_kind(b) is Some {
            LexStep::Tok(
                SpecTok { kind: special_kind(b) -> 0, text: seq![b], start: q, end: q + 1 },
            )
        } else if is_alpha_b(b) {
            let e = ident_end(s, q);
            let text = s.subrange(q, e);
            match keyword_kind(text) {
                Some(k) => LexStep::Tok(SpecTok { kind: k, text, start: q, end: e }),
                None => if e < s.len() && s[e] == OPAR {
                    LexStep::Tok(
                        SpecTok { kind: TokenT::FUNC_CALL__, text, start: q, end: e + 1 },
                    )
                } else {
                    LexStep::Tok(SpecTok { kind: TokenT::VARNAME__, text, start: q, end: e })
                },
            }
        } else if is_digit_b(b) {
            let e = num_end(s, q);
            LexStep::Tok(
                SpecTok { kind: TokenT::NUMBER__, text: s.subrange(q, e), start: q, end: e },
            )
        } else {
            LexStep::Tok(SpecTok { kind: TokenT::NONE__, text: seq![b], start: q, end: q + 1 })
        }
    }
}

/// Every tokenizer step stays within the buffer and, away from the
/// buffer end, makes strict progress.
pub proof fn lemma_spec_next_advances(s: Seq<u8>, p: int)
    requires
        0 <= p <= s.len(),
    ensures
        match spec_next(s, p) {
            LexStep::Tok(t) => p <= t.start <= t.end <= s.len() && (p < s.len() ==> t.end > p) && (
            p >= s.len() ==> t.end == p),
            LexStep::Fail { at, .. } => p <= at <= s.len(),
        },
{
    lemma_skip_ws_bounds(s, p);
    let q = skip_ws(s, p);
    if q < s.len() {
        let b = s[q];
        lemma_comment_end_bounds(s, q);
        lemma_ident_end_bounds(s, q);
        lemma_num_end_bounds(s, q);
        lemma_str_scan_bounds(s, q + 1);
        if b == DIV && q + 1 < s.len() && s[q + 1] == DIV {
            assert(comment_end(s, q) > q);
        }
        if is_alpha_b(b) {
            assert(ident_end(s, q) > q);
        }
        if is_digit_b(b) {
            assert(num_end(s, q) > q);
        }
    }
}

} // verus!
