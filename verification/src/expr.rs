use vstd::prelude::*;

use crate::enums::{is_arith_op, make_prec_table, prec_of, PrecTable, TokenT};
use crate::errors::{make_error, ErrorKind, InterpError};
use crate::lexer::KasperLexer;
use crate::lexspec::{col_spec, lemma_spec_next_advances, row_spec, spec_next, LexStep, SpecTok};
use crate::numfmt::{all_digits, digits_val, parse_digits_i64};
use crate::rat::{srat_add, srat_div, srat_mul, srat_pow, srat_sub, rat_add, rat_div, rat_mul,
    rat_pow, rat_sub, Rat};
use crate::stack::{SVal, Stack};
use crate::token::Token;

verus! {

/// Whether the token kind is a parenthesis.
pub open spec fn is_parent_kind(t: TokenT) -> bool {
    t == TokenT::OPAR__ || t == TokenT::CPAR__
}

/// Whether the token is a parenthesis.
pub fn is_parent(operand: TokenT) -> (r: bool)
    ensures
        r == is_parent_kind(operand),
{
    operand == TokenT::OPAR__ || operand == TokenT::CPAR__
}

/// The outcome of evaluating a postfix token sequence: its value, or a
/// failure with its kind, location and offending text.
pub enum ERes {
    Val(Rat),
    Failk { kind: ErrorKind, row: usize, col: usize, text: Seq<u8> },
}

/// The result an arithmetic operator token produces from the two most
/// recently pushed operands `a` (top) and `b` (beneath it).
pub open spec fn op_apply(t: TokenT, a: Rat, b: Rat) -> Option<Rat> {
    match t {
        TokenT::PLUS__ => srat_add(a, b),
        TokenT::MINUS__ => srat_sub(b, a),
        TokenT::MULT__ => srat_mul(a, b),
        TokenT::DIV__ => srat_div(b, a),
        TokenT::POW__ => srat_pow(b, a),
        _ => None,
    }
}

/// The postfix stack machine: consumes the tokens in order, pushing
/// operand values and applying operators to the top two values. The
/// final top of the stack is the result; an empty stack at the end is
/// the internal-consistency failure ("value lost").
pub open spec fn eval_toks(ts: Seq<Token>, m: Map<Seq<u8>, SVal>, vs: Seq<Rat>) -> ERes
    decreases ts.len(),
{
    if ts.len() == 0 {
        if vs.len() == 0 {
            ERes::Failk { kind: ErrorKind::ArithmeticError, row: 0, col: 0, text: Seq::empty() }
        } else {
            ERes::Val(vs.last())
        }
    } else {
        let t = ts.first();
        let rest = ts.drop_first();
        if is_arith_op(t.token_type) {
            if vs.len() < 2 {
                ERes::Failk {
                    kind: ErrorKind::SyntaxError,
                    row: t.loc.row,
                    col: t.loc.col,
                    text: t.value@,
                }
            } else {
                let a = vs.last();
                let b = vs[vs.len() - 2];
                match op_apply(t.token_type, a, b) {
                    Some(v) => eval_toks(rest, m, vs.take(vs.len() - 2).push(v)),
                    None => ERes::Failk {
                        kind: ErrorKind::ArithmeticError,
                        row: t.loc.row,
                        col: t.loc.col,
                        text: t.value@,
                    },
                }
            }
        } else if t.token_type == TokenT::NUMBER__ {
            if t.value@.len() > 0 && all_digits(t.value@) && digits_val(t.value@) <= i64::MAX {
                eval_toks(rest, m, vs.push(Rat { num: digits_val(t.value@) as i64, den: 1 }))
            } else {
                ERes::Failk {
                    kind: ErrorKind::ArithmeticError,
                    row: t.loc.row,
                    col: t.loc.col,
                    text: t.value@,
                }
            }
        } else if t.token_type == TokenT::VARNAME__ {
            if m.contains_key(t.value@) && (m[t.value@] is SInt || m[t.value@] is SInt64) {
                let v = match m[t.value@] {
                    SVal::SInt(x) => x as i64,
                    SVal::SInt64(x) => x,
                    _ => 0,
                };
                eval_toks(rest, m, vs.push(Rat { num: v, den: 1 }))
            } else {
                ERes::Failk {
                    kind: ErrorKind::UndefinedVariableError,
                    row: t.loc.row,
                    col: t.loc.col,
                    text: t.value@,
                }
            }
        } else {
            eval_toks(rest, m, vs)
        }
    }
}

/// Whether an executable token carries exactly what a specification
/// token describes, locations resolved against the source.
pub open spec fn tok_matches(tok: Token, st: SpecTok, s: Seq<u8>) -> bool {
    &&& tok.token_type == st.kind
    &&& tok.value@ == st.text
    &&& tok.loc.row as int == row_spec(s, st.start)
    &&& tok.loc.col as int == col_spec(s, st.start)
}

pub open spec fn tok_seq_matches(ts: Seq<Token>, sts: Seq<SpecTok>, s: Seq<u8>) -> bool {
    &&& ts.len() == sts.len()
    &&& forall|i: int| 0 <= i < ts.len() ==> #[trigger] tok_matches(ts[i], sts[i], s)
}

/// Pops operators from the operator stack onto the output until an
/// opening parenthesis surfaces (which is discarded); reports whether
/// one was found.
pub open spec fn pop_until_opar(tmp: Seq<SpecTok>, out: Seq<SpecTok>) -> (Seq<SpecTok>, Seq<
    SpecTok,
>, bool)
    decreases tmp.len(),
{
    if tmp.len() == 0 {
        (tmp, out, false)
    } else if tmp.last().kind == TokenT::OPAR__ {
        (tmp.drop_last(), out, true)
    } else {
        pop_until_opar(tmp.drop_last(), out.push(tmp.last()))
    }
}

/// Pops operators of no lower precedence than the incoming one onto the
/// output; an equal-precedence operator stays when the incoming one is
/// right-associative.
pub open spec fn pop_ge(tmp: Seq<SpecTok>, out: Seq<SpecTok>, p: u32, rassoc: bool) -> (Seq<
    SpecTok,
>, Seq<SpecTok>)
    decreases tmp.len(),
{
    if tmp.len() == 0 {
        (tmp, out)
    } else {
        match prec_of(tmp.last().kind) {
            None => (tmp, out),
            Some(tp) => if tp > p || (tp == p && !rassoc) {
                pop_ge(tmp.drop_last(), out.push(tmp.last()), p, rassoc)
            } else {
                (tmp, out)
            },
        }
    }
}

/// Whether a parenthesis survived into the postfix sequence.
pub open spec fn has_paren(rpn: Seq<SpecTok>) -> bool {
    exists|i: int| 0 <= i < rpn.len() && is_parent_kind(#[trigger] rpn[i].kind)
}

/// The outcome of converting an infix token run to postfix.
pub enum PostRes {
    /// The postfix sequence and the cursor position after the scan.
    POk { rpn: Seq<SpecTok>, end: int },
    /// A failure of the given kind at the given source position.
    PFail { kind: ErrorKind, at: int },
}

/// Finishing a scan: drain the operator stack onto the output; a
/// parenthesis left anywhere means the expression was unbalanced.
pub open spec fn drain_res(tmp: Seq<SpecTok>, out: Seq<SpecTok>, end: int) -> PostRes {
    let rpn = out + tmp.reverse();
    if has_paren(rpn) {
        PostRes::PFail { kind: ErrorKind::UnmatchedParenError, at: end }
    } else {
        PostRes::POk { rpn, end }
    }
}

/// The shunting-yard scan from cursor position `p` with operator stack
/// `tmp` and output `out`: operands go to the output, parentheses
/// group, operators reduce by precedence (left-associative except `^`),
/// and a newline, the buffer end or any unrecognized token ends the
/// scan.
pub open spec fn spec_postfix_loop(s: Seq<u8>, p: int, tmp: Seq<SpecTok>, out: Seq<SpecTok>)
    -> PostRes
    decreases s.len() - p,
{
    if !(0 <= p < s.len()) {
        drain_res(tmp, out, p)
    } else {
        match spec_next(s, p) {
            LexStep::Fail { kind, at } => PostRes::PFail { kind, at },
            LexStep::Tok(t) => {
                proof {
                    lemma_spec_next_advances(s, p);
                }
                if t.kind == TokenT::NL__ {
                    drain_res(tmp, out, t.end)
                } else if t.kind == TokenT::COMMENT__ {
                    spec_postfix_loop(s, t.end, tmp, out)
                } else if t.kind == TokenT::NUMBER__ || t.kind == TokenT::VARNAME__ {
                    spec_postfix_loop(s, t.end, tmp, out.push(t))
                } else if t.kind == TokenT::OPAR__ {
                    spec_postfix_loop(s, t.end, tmp.push(t), out)
                } else if t.kind == TokenT::CPAR__ {
                    let popped = pop_until_opar(tmp, out);
                    if popped.2 {
                        spec_postfix_loop(s, t.end, popped.0, popped.1)
                    } else {
                        PostRes::PFail { kind: ErrorKind::UnmatchedParenError, at: t.start }
                    }
                } else if is_arith_op(t.kind) {
                    let popped = pop_ge(tmp, out, prec_of(t.kind) -> 0, t.kind == TokenT::POW__);
                    spec_postfix_loop(s, t.end, popped.0.push(t), popped.1)
                } else {
                    drain_res(tmp, out, t.end)
                }
            },
        }
    }
}

/// The evaluation outcome stated over specification tokens, locations
/// resolved against the source.
pub enum SERes {
    SVal_(Rat),
    SFailk { kind: ErrorKind, row: int, col: int },
}

/// The postfix stack machine over specification tokens; it agrees with
/// `eval_toks` on matching token sequences.
pub open spec fn eval_stoks(s: Seq<u8>, ts: Seq<SpecTok>, m: Map<Seq<u8>, SVal>, vs: Seq<Rat>)
    -> SERes
    decreases ts.len(),
{
    if ts.len() == 0 {
        if vs.len() == 0 {
            SERes::SFailk { kind: ErrorKind::ArithmeticError, row: 0, col: 0 }
        } else {
            SERes::SVal_(vs.last())
        }
    } else {
        let t = ts.first();
        let rest = ts.drop_first();
        if is_arith_op(t.kind) {
            if vs.len() < 2 {
                SERes::SFailk {
                    kind: ErrorKind::SyntaxError,
                    row: row_spec(s, t.start),
                    col: col_spec(s, t.start),
                }
            } else {
                let a = vs.last();
                let b = vs[vs.len() - 2];
                match op_apply(t.kind, a, b) {
                    Some(v) => eval_stoks(s, rest, m, vs.take(vs.len() - 2).push(v)),
                    None => SERes::SFailk {
                        kind: ErrorKind::ArithmeticError,
                        row: row_spec(s, t.start),
                        col: col_spec(s, t.start),
                    },
                }
            }
        } else if t.kind == TokenT::NUMBER__ {
            if t.text.len() > 0 && all_digits(t.text) && digits_val(t.text) <= i64::MAX {
                eval_stoks(s, rest, m, vs.push(Rat { num: digits_val(t.text) as i64, den: 1 }))
            } else {
                SERes::SFailk {
                    kind: ErrorKind::ArithmeticError,
                    row: row_spec(s, t.start),
                    col: col_spec(s, t.start),
                }
            }
        } else if t.kind == TokenT::VARNAME__ {
            if m.contains_key(t.text) && (m[t.text] is SInt || m[t.text] is SInt64) {
                let v = match m[t.text] {
                    SVal::SInt(x) => x as i64,
                    SVal::SInt64(x) => x,
                    _ => 0,
                };
                eval_stoks(s, rest, m, vs.push(Rat { num: v, den: 1 }))
            } else {
                SERes::SFailk {
                    kind: ErrorKind::UndefinedVariableError,
                    row: row_spec(s, t.start),
                    col: col_spec(s, t.start),
                }
            }
        } else {
            eval_stoks(s, rest, m, vs)
        }
    }
}

/// Whether the two machines' outcomes say the same thing.
pub open spec fn eres_agree(a: ERes, b: SERes) -> bool {
    match (a, b) {
        (ERes::Val(v), SERes::SVal_(w)) => v == w,
        (
            ERes::Failk { kind, row, col, .. },
            SERes::SFailk { kind: k2, row: r2, col: c2 },
        ) => kind == k2 && row as int == r2 && col as int == c2,
        _ => false,
    }
}

/// Matching token sequences evaluate alike.
pub proof fn lemma_eval_bridge(
    s: Seq<u8>,
    ts: Seq<Token>,
    sts: Seq<SpecTok>,
    m: Map<Seq<u8>, SVal>,
    vs: Seq<Rat>,
)
    requires
        tok_seq_matches(ts, sts, s),
    ensures
        eres_agree(eval_toks(ts, m, vs), eval_stoks(s, sts, m, vs)),
    decreases ts.len(),
{
    if ts.len() > 0 {
        assert(tok_matches(ts[0], sts[0], s));
        assert(ts.first() == ts[0] && sts.first() == sts[0]);
        assert forall|j: int| 0 <= j < ts.drop_first().len() implies #[trigger] tok_matches(
            ts.drop_first()[j],
            sts.drop_first()[j],
            s,
        ) by {
            assert(ts.drop_first()[j] == ts[j + 1]);
            assert(sts.drop_first()[j] == sts[j + 1]);
            assert(tok_matches(ts[j + 1], sts[j + 1], s));
        }
        let t = ts.first();
        let st = sts.first();
        if is_arith_op(t.token_type) {
            if vs.len() >= 2 {
                match op_apply(t.token_type, vs.last(), vs[vs.len() - 2]) {
                    Some(v) => {
                        lemma_eval_bridge(
                            s,
                            ts.drop_first(),
                            sts.drop_first(),
                            m,
                            vs.take(vs.len() - 2).push(v),
                        );
                    },
                    None => {},
                }
            }
        } else if t.token_type == TokenT::NUMBER__ {
            if t.value@.len() > 0 && all_digits(t.value@) && digits_val(t.value@) <= i64::MAX {
                lemma_eval_bridge(
                    s,
                    ts.drop_first(),
                    sts.drop_first(),
                    m,
                    vs.push(Rat { num: digits_val(t.value@) as i64, den: 1 }),
                );
            }
        } else if t.token_type == TokenT::VARNAME__ {
            if m.contains_key(t.value@) && (m[t.value@] is SInt || m[t.value@] is SInt64) {
                let v = match m[t.value@] {
                    SVal::SInt(x) => x as i64,
                    SVal::SInt64(x) => x,
                    _ => 0,
                };
                lemma_eval_bridge(s, ts.drop_first(), sts.drop_first(), m, vs.push(Rat { num: v, den: 1 }));
            }
        } else {
            lemma_eval_bridge(s, ts.drop_first(), sts.drop_first(), m, vs);
        }
    }
}

/// The outcome of reading and evaluating one expression from the byte
/// stream.
pub enum ExprRes {
    /// The value and the cursor position after the scan.
    EOk { v: Rat, end: int },
    /// A failure of the given kind at the given row and column.
    EFail { kind: ErrorKind, row: int, col: int },
}

/// Reading one expression: the shunting-yard scan to postfix, then the
/// stack machine over the result.
pub open spec fn spec_expr(s: Seq<u8>, p: int, m: Map<Seq<u8>, SVal>) -> ExprRes {
    match spec_postfix_loop(s, p, Seq::empty(), Seq::empty()) {
        PostRes::PFail { kind, at } => ExprRes::EFail {
            kind,
            row: row_spec(s, at),
            col: col_spec(s, at),
        },
        PostRes::POk { rpn, end } => match eval_stoks(s, rpn, m, Seq::empty()) {
            SERes::SVal_(v) => ExprRes::EOk { v, end },
            SERes::SFailk { kind, row, col } => ExprRes::EFail { kind, row, col },
        },
    }
}

/// The expression parser: an output stack of postfix-ordered tokens and
/// the operator-precedence table.
pub struct ArithmaticParser {
    pub iostack: Vec<Token>,
    pub prec_table: PrecTable,
}

impl ArithmaticParser {
    /// Builds an expression parser with an empty output stack.
    pub fn new() -> (r: ArithmaticParser)
        ensures
            r.iostack@.len() == 0,
    {
        ArithmaticParser { iostack: Vec::new(), prec_table: make_prec_table() }
    }

    /// Whether the first operator binds tighter than the second.
    pub fn is_greater(&self, f: TokenT, s: TokenT) -> (r: bool)
        requires
            is_arith_op(f),
            is_arith_op(s),
        ensures
            r == ((prec_of(f) -> 0) > (prec_of(s) -> 0)),
    {
        let pf: u32 = match self.prec_table.get(f) {
            Some(p) => p,
            None => 0,
        };
        let ps: u32 = match self.prec_table.get(s) {
            Some(p) => p,
            None => 0,
        };
        pf > ps
    }

    /// Whether the first operator binds no tighter than the second.
    pub fn is_less_eq(&self, f: TokenT, s: TokenT) -> (r: bool)
        requires
            is_arith_op(f),
            is_arith_op(s),
        ensures
            r == ((prec_of(f) -> 0) <= (prec_of(s) -> 0)),
    {
        let pf: u32 = match self.prec_table.get(f) {
            Some(p) => p,
            None => 0,
        };
        let ps: u32 = match self.prec_table.get(s) {
            Some(p) => p,
            None => 0,
        };
        pf <= ps
    }

    /// Whether the token kind is an arithmetic operator.
    pub fn is_in_prec(&self, t: TokenT) -> (r: bool)
        ensures
            r == is_arith_op(t),
    {
        self.prec_table.contains(t)
    }

    /// Evaluates the output stack, in the order established by
    /// `postfix`, against the variable store. Consumes the whole stack.
    pub fn evaluate(&mut self, mem_stack: &Stack) -> (r: Result<Rat, InterpError>)
        requires
            mem_stack.wf(),
        ensures
            r is Ok ==> final(self).iostack@.len() == 0,
            ({
                let m = mem_stack.smap();
                match eval_toks(old(self).iostack@.reverse(), m, Seq::empty()) {
                    ERes::Val(v) => r == Ok::<Rat, InterpError>(v),
                    ERes::Failk { kind, row, col, text } => match r {
                        Ok(_) => false,
                        Err(e) => e.kind == kind && e.row == row && e.col == col && e.text@
                            == text,
                    },
                }
            }),
            r is Ok ==> (r -> Ok_0).wf(),
    {
        let ghost m = mem_stack.smap();
        let ghost target = eval_toks(self.iostack@.reverse(), m, Seq::<Rat>::empty());
        let mut res: Vec<Rat> = Vec::new();
        loop
            invariant
                mem_stack.wf(),
                m == mem_stack.smap(),
                target == eval_toks(old(self).iostack@.reverse(), m, Seq::<Rat>::empty()),
                eval_toks(self.iostack@.reverse(), m, res@) == target,
                forall|i: int| 0 <= i < res@.len() ==> #[trigger] res@[i].wf(),
            ensures
                self.iostack@.len() == 0,
                eval_toks(self.iostack@.reverse(), m, res@) == target,
                forall|i: int| 0 <= i < res@.len() ==> #[trigger] res@[i].wf(),
            decreases self.iostack@.len(),
        {
            let ghost rev = self.iostack@.reverse();
            let ghost vs0 = res@;
            proof {
                if self.iostack@.len() > 0 {
                    assert(rev.first() == self.iostack@.last());
                    assert(rev.drop_first() =~= self.iostack@.drop_last().reverse());
                }
            }
            let l: Token = match self.iostack.pop() {
                Some(t) => t,
                None => {
                    break ;
                },
            };
            proof {
                assert(l == rev.first());
                assert(self.iostack@.reverse() =~= rev.drop_first());
            }
            let kind: TokenT = l.token_type;
            if self.is_in_prec(kind) {
                if res.len() < 2 {
                    return Err(make_error(ErrorKind::SyntaxError, l.loc.row, l.loc.col, l.value));
                }
                let a: Rat = match res.pop() {
                    Some(v) => v,
                    None => {
                        return Err(
                            make_error(ErrorKind::SyntaxError, l.loc.row, l.loc.col, l.value),
                        );
                    },
                };
                let b: Rat = match res.pop() {
                    Some(v) => v,
                    None => {
                        return Err(
                            make_error(ErrorKind::SyntaxError, l.loc.row, l.loc.col, l.value),
                        );
                    },
                };
                let applied: Option<Rat> = if kind == TokenT::PLUS__ {
                    rat_add(a, b)
                } else if kind == TokenT::MINUS__ {
                    rat_sub(b, a)
                } else if kind == TokenT::MULT__ {
                    rat_mul(a, b)
                } else if kind == TokenT::DIV__ {
                    rat_div(b, a)
                } else {
                    rat_pow(b, a)
                };
                proof {
                    assert(res@ =~= vs0.take(vs0.len() - 2));
                    assert(a == vs0.last());
                    assert(b == vs0[vs0.len() - 2]);
                    assert(applied == op_apply(l.token_type, a, b));
                }
                match applied {
                    Some(v) => {
                        res.push(v);
                    },
                    None => {
                        return Err(
                            make_error(
                                ErrorKind::ArithmeticError,
                                l.loc.row,
                                l.loc.col,
                                l.value,
                            ),
                        );
                    },
                }
            } else if kind == TokenT::NUMBER__ {
                match parse_digits_i64(&l.value) {
                    Some(v) => {
                        res.push(Rat::from_int(v));
                    },
                    None => {
                        return Err(
                            make_error(
                                ErrorKind::ArithmeticError,
                                l.loc.row,
                                l.loc.col,
                                l.value,
                            ),
                        );
                    },
                }
            } else if kind == TokenT::VARNAME__ {
                match mem_stack.get_int(&l.value) {
                    Some(v) => {
                        res.push(Rat::from_int(v));
                    },
                    None => {
                        return Err(
                            make_error(
                                ErrorKind::UndefinedVariableError,
                                l.loc.row,
                                l.loc.col,
                                l.value,
                            ),
                        );
                    },
                }
            }
        }
        if res.len() == 0 {
            let empty_text: Vec<u8> = Vec::new();
            return Err(make_error(ErrorKind::ArithmeticError, 0, 0, empty_text));
        }
        let v: Rat = res[res.len() - 1];
        Ok(v)
    }

    /// Converts the infix token run starting at the lexer's cursor into
    /// postfix order on the output stack, by the operator-precedence
    /// scan `spec_postfix_loop` describes. The scan ends at a newline,
    /// the buffer end, or any token that is not part of an expression;
    /// an unmatched parenthesis is an error and is never dropped.
    pub fn postfix(&mut self, lex: &mut KasperLexer) -> (r: Result<(), InterpError>)
        requires
            old(self).iostack@.len() == 0,
            old(lex).wf(),
        ensures
            final(lex).wf(),
            final(lex).source@ == old(lex).source@,
            final(lex).size == old(lex).size,
            ({
                let s = old(lex).source@;
                match spec_postfix_loop(s, old(lex).cur as int, Seq::empty(), Seq::empty()) {
                    PostRes::POk { rpn, end } => match r {
                        Ok(_) => tok_seq_matches(final(self).iostack@.reverse(), rpn, s)
                            && final(lex).cur == end,
                        Err(_) => false,
                    },
                    PostRes::PFail { kind, at } => match r {
                        Ok(_) => false,
                        Err(e) => e.kind == kind && e.row as int == row_spec(s, at) && e.col as int
                            == col_spec(s, at),
                    },
                }
            }),
    {
        let ghost s = lex.source@;
        let ghost p0 = lex.cur as int;
        let ghost target = spec_postfix_loop(
            s,
            p0,
            Seq::<SpecTok>::empty(),
            Seq::<SpecTok>::empty(),
        );
        let mut tmp: Vec<Token> = Vec::new();
        let ghost mut gtmp = Seq::<SpecTok>::empty();
        let ghost mut gout = Seq::<SpecTok>::empty();
        loop
            invariant_except_break
                spec_postfix_loop(s, lex.cur as int, gtmp, gout) == target,
            invariant
                lex.wf(),
                lex.source@ == s,
                s == old(lex).source@,
                lex.size == old(lex).size,
                p0 == old(lex).cur as int,
                target == spec_postfix_loop(
                    s,
                    p0,
                    Seq::<SpecTok>::empty(),
                    Seq::<SpecTok>::empty(),
                ),
                tok_seq_matches(tmp@, gtmp, s),
                tok_seq_matches(self.iostack@, gout, s),
            ensures
                lex.wf(),
                lex.source@ == s,
                lex.size == old(lex).size,
                p0 == old(lex).cur as int,
                target == spec_postfix_loop(
                    s,
                    p0,
                    Seq::<SpecTok>::empty(),
                    Seq::<SpecTok>::empty(),
                ),
                tok_seq_matches(tmp@, gtmp, s),
                tok_seq_matches(self.iostack@, gout, s),
                target == drain_res(gtmp, gout, lex.cur as int),
            decreases lex.size - lex.cur,
        {
            if !lex.is_not_empty() {
                break ;
            }
            let ghost cpre = lex.cur as int;
            proof {
                lemma_spec_next_advances(s, cpre);
            }
            let token: Token = match lex.next() {
                Ok(t) => t,
                Err(e) => {
                    proof {
                        assert(0 <= cpre < s.len());
                        assert(spec_next(s, cpre) is Fail);
                    }
                    return Err(e);
                },
            };
            let ghost st = match spec_next(s, cpre) {
                LexStep::Tok(t0) => t0,
                LexStep::Fail { .. } => arbitrary(),
            };
            let kind: TokenT = token.token_type;
            if kind == TokenT::NL__ {
                break ;
            }
            if kind == TokenT::COMMENT__ {
                continue ;
            }
            if kind == TokenT::NUMBER__ || kind == TokenT::VARNAME__ {
                self.iostack.push(token);
                proof {
                    gout = gout.push(st);
                }
                continue ;
            }
            if kind == TokenT::OPAR__ {
                tmp.push(token);
                proof {
                    gtmp = gtmp.push(st);
                }
                continue ;
            }
            if kind == TokenT::CPAR__ {
                let ghost pres = pop_until_opar(gtmp, gout);
                loop
                    invariant_except_break
                        pres == pop_until_opar(gtmp, gout),
                    invariant
                        lex.wf(),
                        lex.source@ == s,
                        s == old(lex).source@,
                        lex.size == old(lex).size,
                        lex.cur as int == st.end,
                        tok_matches(token, st, s),
                        p0 == old(lex).cur as int,
                        tok_seq_matches(tmp@, gtmp, s),
                        tok_seq_matches(self.iostack@, gout, s),
                        target == spec_postfix_loop(
                            s,
                            p0,
                            Seq::<SpecTok>::empty(),
                            Seq::<SpecTok>::empty(),
                        ),
                        target == (if pres.2 {
                            spec_postfix_loop(s, st.end, pres.0, pres.1)
                        } else {
                            PostRes::PFail { kind: ErrorKind::UnmatchedParenError, at: st.start }
                        }),
                    ensures
                        lex.wf(),
                        lex.source@ == s,
                        lex.size == old(lex).size,
                        lex.cur as int == st.end,
                        tok_seq_matches(tmp@, gtmp, s),
                        tok_seq_matches(self.iostack@, gout, s),
                        gtmp == pres.0,
                        gout == pres.1,
                        pres.2,
                        target == spec_postfix_loop(s, st.end, gtmp, gout),
                    decreases tmp@.len(),
                {
                    if tmp.len() == 0 {
                        return Err(
                            make_error(
                                ErrorKind::UnmatchedParenError,
                                token.loc.row,
                                token.loc.col,
                                token.value,
                            ),
                        );
                    }
                    proof {
                        assert(tok_matches(tmp@[tmp@.len() - 1], gtmp[gtmp.len() - 1], s));
                    }
                    let top_is_opar: bool = tmp[tmp.len() - 1].token_type == TokenT::OPAR__;
                    if top_is_opar {
                        tmp.pop();
                        proof {
                            gtmp = gtmp.drop_last();
                            assert(tok_seq_matches(tmp@, gtmp, s));
                        }
                        break ;
                    }
                    let moved: Token = match tmp.pop() {
                        Some(x) => x,
                        None => {
                            return Err(
                                make_error(
                                    ErrorKind::UnmatchedParenError,
                                    token.loc.row,
                                    token.loc.col,
                                    token.value,
                                ),
                            );
                        },
                    };
                    self.iostack.push(moved);
                    proof {
                        gout = gout.push(gtmp.last());
                        gtmp = gtmp.drop_last();
                        assert(tok_seq_matches(tmp@, gtmp, s));
                        assert(tok_seq_matches(self.iostack@, gout, s));
                    }
                }
                continue ;
            }
            let pin_opt: Option<u32> = self.prec_table.get(kind);
            match pin_opt {
                Some(pin) => {
                    let rassoc: bool = kind == TokenT::POW__;
                    let ghost pres2 = pop_ge(gtmp, gout, prec_of(st.kind) -> 0, st.kind
                        == TokenT::POW__);
                    loop
                        invariant
                            lex.wf(),
                            lex.source@ == s,
                            s == old(lex).source@,
                            lex.size == old(lex).size,
                            lex.cur as int == st.end,
                            tok_matches(token, st, s),
                            p0 == old(lex).cur as int,
                            target == spec_postfix_loop(s, st.end, pres2.0.push(st), pres2.1),
                            pin == prec_of(st.kind) -> 0,
                            rassoc == (st.kind == TokenT::POW__),
                            is_arith_op(st.kind),
                            tok_seq_matches(tmp@, gtmp, s),
                            tok_seq_matches(self.iostack@, gout, s),
                            pres2 == pop_ge(gtmp, gout, prec_of(st.kind) -> 0, st.kind
                                == TokenT::POW__),
                            target == spec_postfix_loop(
                                s,
                                p0,
                                Seq::<SpecTok>::empty(),
                                Seq::<SpecTok>::empty(),
                            ),
                        ensures
                            lex.wf(),
                            lex.source@ == s,
                            lex.size == old(lex).size,
                            lex.cur as int == st.end,
                            tok_seq_matches(tmp@, gtmp, s),
                            tok_seq_matches(self.iostack@, gout, s),
                            gtmp == pres2.0,
                            gout == pres2.1,
                        decreases tmp@.len(),
                    {
                        if tmp.len() == 0 {
                            break ;
                        }
                        proof {
                            assert(tok_matches(tmp@[tmp@.len() - 1], gtmp[gtmp.len() - 1], s));
                        }
                        let topk: TokenT = tmp[tmp.len() - 1].token_type;
                        let tp_opt: Option<u32> = self.prec_table.get(topk);
                        match tp_opt {
                            None => {
                                break ;
                            },
                            Some(tp) => {
                                if tp > pin || (tp == pin && !rassoc) {
                                    let moved: Token = match tmp.pop() {
                                        Some(x) => x,
                                        None => {
                                            break ;
                                        },
                                    };
                                    self.iostack.push(moved);
                                    proof {
                                        gout = gout.push(gtmp.last());
                                        gtmp = gtmp.drop_last();
                                        assert(tok_seq_matches(tmp@, gtmp, s));
                                        assert(tok_seq_matches(self.iostack@, gout, s));
                                    }
                                } else {
                                    break ;
                                }
                            },
                        }
                    }
                    tmp.push(token);
                    proof {
                        gtmp = gtmp.push(st);
                        assert(tok_seq_matches(tmp@, gtmp, s));
                    }
                    continue ;
                },
                None => {
                    // Any other token ends the expression scan.
                    break ;
                },
            }
        }
        // Drain what remains of the operator stack onto the output.
        let ghost gtmp_d = gtmp;
        let ghost gout_d = gout;
        let ghost rpn_g = gout + gtmp.reverse();
        let ghost end_g = lex.cur as int;
        while tmp.len() > 0
            invariant
                lex.wf(),
                lex.source@ == s,
                s == old(lex).source@,
                lex.size == old(lex).size,
                lex.cur as int == end_g,
                p0 == old(lex).cur as int,
                target == drain_res(gtmp_d, gout_d, end_g),
                target == spec_postfix_loop(s, p0, Seq::<SpecTok>::empty(), Seq::<SpecTok>::empty()),
                rpn_g == gout_d + gtmp_d.reverse(),
                tok_seq_matches(tmp@, gtmp, s),
                tok_seq_matches(self.iostack@, gout, s),
                gout + gtmp.reverse() == rpn_g,
            ensures
                lex.wf(),
                lex.source@ == s,
                s == old(lex).source@,
                lex.size == old(lex).size,
                lex.cur as int == end_g,
                p0 == old(lex).cur as int,
                target == drain_res(gtmp_d, gout_d, end_g),
                target == spec_postfix_loop(s, p0, Seq::<SpecTok>::empty(), Seq::<SpecTok>::empty()),
                rpn_g == gout_d + gtmp_d.reverse(),
                tok_seq_matches(tmp@, gtmp, s),
                tok_seq_matches(self.iostack@, gout, s),
                gout + gtmp.reverse() == rpn_g,
                tmp@.len() == 0,
            decreases tmp@.len(),
        {
            proof {
                assert(tok_matches(tmp@[tmp@.len() - 1], gtmp[gtmp.len() - 1], s));
                assert(gout.push(gtmp.last()) + gtmp.drop_last().reverse() =~= gout
                    + gtmp.reverse());
            }
            let moved: Token = match tmp.pop() {
                Some(x) => x,
                None => {
                    proof {
                        assert(false);
                    }
                    break ;
                },
            };
            self.iostack.push(moved);
            proof {
                gout = gout.push(gtmp.last());
                gtmp = gtmp.drop_last();
                assert(tok_seq_matches(tmp@, gtmp, s));
                assert(tok_seq_matches(self.iostack@, gout, s));
            }
        }
        proof {
            assert(gtmp.len() == 0);
            assert(gout + gtmp.reverse() =~= gout);
            assert(gout =~= rpn_g);
        }
        // An unbalanced parenthesis must never be dropped silently.
        let n: usize = self.iostack.len();
        let mut i: usize = 0;
        while i < n
            invariant
                lex.wf(),
                lex.source@ == s,
                s == old(lex).source@,
                lex.size == old(lex).size,
                lex.cur as int == end_g,
                p0 == old(lex).cur as int,
                target == drain_res(gtmp_d, gout_d, end_g),
                target == spec_postfix_loop(s, p0, Seq::<SpecTok>::empty(), Seq::<SpecTok>::empty()),
                rpn_g == gout_d + gtmp_d.reverse(),
                n == self.iostack@.len(),
                0 <= i <= n,
                tok_seq_matches(self.iostack@, rpn_g, s),
                forall|j: int| 0 <= j < i ==> !is_parent_kind(#[trigger] rpn_g[j].kind),
            decreases n - i,
        {
            proof {
                assert(tok_matches(self.iostack@[i as int], rpn_g[i as int], s));
            }
            if is_parent(self.iostack[i].token_type) {
                let empty_text: Vec<u8> = Vec::new();
                let row: usize = lex.row;
                let col: usize = lex.col;
                return Err(make_error(ErrorKind::UnmatchedParenError, row, col, empty_text));
            }
            i = i + 1;
        }
        proof {
            assert(!has_paren(rpn_g));
        }
        // Reverse the output so evaluation can pop in postfix order.
        let ghost pre_rev = self.iostack@;
        let mut revd: Vec<Token> = Vec::new();
        loop
            invariant
                revd@.len() + self.iostack@.len() == pre_rev.len(),
                self.iostack@ == pre_rev.take(self.iostack@.len() as int),
                forall|k: int|
                    0 <= k < revd@.len() ==> #[trigger] revd@[k] == pre_rev[pre_rev.len() - 1 - k],
            ensures
                self.iostack@.len() == 0,
                revd@.len() == pre_rev.len(),
                forall|k: int|
                    0 <= k < revd@.len() ==> #[trigger] revd@[k] == pre_rev[pre_rev.len() - 1 - k],
            decreases self.iostack@.len(),
        {
            let moved: Token = match self.iostack.pop() {
                Some(x) => x,
                None => {
                    break ;
                },
            };
            proof {
                assert(moved == pre_rev[self.iostack@.len() as int]);
            }
            revd.push(moved);
        }
        self.iostack = revd;
        proof {
            assert(self.iostack@.reverse() =~= pre_rev);
        }
        Ok(())
    }

    /// Reads one expression from the lexer's cursor and evaluates it
    /// against the variable store.
    pub fn read_expression(&mut self, lex: &mut KasperLexer, mem_stack: &Stack) -> (r: Result<
        Rat,
        InterpError,
    >)
        requires
            old(self).iostack@.len() == 0,
            old(lex).wf(),
            mem_stack.wf(),
        ensures
            final(lex).wf(),
            final(lex).source@ == old(lex).source@,
            final(lex).size == old(lex).size,
            r is Ok ==> final(self).iostack@.len() == 0,
            r is Ok ==> (r -> Ok_0).wf(),
            ({
                let s = old(lex).source@;
                match spec_expr(s, old(lex).cur as int, mem_stack.smap()) {
                    ExprRes::EOk { v, end } => r == Ok::<Rat, InterpError>(v) && final(lex).cur
                        == end,
                    ExprRes::EFail { kind, row, col } => match r {
                        Ok(_) => false,
                        Err(e) => e.kind == kind && e.row as int == row && e.col as int == col,
                    },
                }
            }),
    {
        let ghost s = old(lex).source@;
        let ghost p = old(lex).cur as int;
        let ghost m = mem_stack.smap();
        match self.postfix(lex) {
            Err(e) => {
                return Err(e);
            },
            Ok(_) => {},
        }
        proof {
            match spec_postfix_loop(s, p, Seq::<SpecTok>::empty(), Seq::<SpecTok>::empty()) {
                PostRes::POk { rpn, end } => {
                    lemma_eval_bridge(s, self.iostack@.reverse(), rpn, m, Seq::<Rat>::empty());
                },
                PostRes::PFail { .. } => {},
            }
        }
        self.evaluate(mem_stack)
    }
}

} // verus!
