use vstd::prelude::*;

use crate::enums::{TokenT, NL};
use crate::errors::ErrorKind;
use crate::expr::{spec_expr, spec_postfix_loop, ExprRes, PostRes};
use crate::lexspec::{
    col_spec, kw_write, lemma_spec_next_advances, row_spec, spec_next, LexStep, SpecTok,
};
use crate::rat::strunc;
use crate::stack::{render_sval, SVal};

verus! {

/// The outcome of one statement: the cursor, store and output after it,
/// or a failure with its kind and location.
pub enum StepRes {
    SOk { end: int, m: Map<Seq<u8>, SVal>, out: Seq<u8> },
    SFail { kind: ErrorKind, row: int, col: int },
}

/// A 64-bit value clamped into the 32-bit range, as a lossy numeric
/// cast saturates.
pub open spec fn sat32(t: int) -> i32 {
    if t > i32::MAX {
        i32::MAX
    } else if t < i32::MIN {
        i32::MIN
    } else {
        t as i32
    }
}

/// The default a declaration seeds: the empty string, zero for both
/// integer widths, and true for booleans.
pub open spec fn default_sval(ty: TokenT) -> SVal {
    match ty {
        TokenT::STRING_T => SVal::SStr(Seq::empty()),
        TokenT::INT_T => SVal::SInt(0),
        TokenT::INT_T_64 => SVal::SInt64(0),
        _ => SVal::SBool(true),
    }
}

/// The type keyword a stored value answers to.
pub open spec fn ty_of(v: SVal) -> TokenT {
    match v {
        SVal::SStr(_) => TokenT::STRING_T,
        SVal::SInt(_) => TokenT::INT_T,
        SVal::SInt64(_) => TokenT::INT_T_64,
        SVal::SBool(_) => TokenT::BOOL_T,
    }
}

/// Whether the token kind names one of the four variable types.
pub open spec fn is_type_kind(t: TokenT) -> bool {
    t == TokenT::STRING_T || t == TokenT::INT_T || t == TokenT::INT_T_64 || t == TokenT::BOOL_T
}

/// An initializer for a variable of the given type: a string or boolean
/// literal whose kind must match, or, for the integer types, an
/// expression whose value is truncated (and for 32 bits, saturated).
pub open spec fn spec_init(
    s: Seq<u8>,
    p: int,
    m: Map<Seq<u8>, SVal>,
    out: Seq<u8>,
    name: Seq<u8>,
    ty: TokenT,
) -> StepRes {
    if ty == TokenT::STRING_T {
        match spec_next(s, p) {
            LexStep::Fail { kind, at } => StepRes::SFail {
                kind,
                row: row_spec(s, at),
                col: col_spec(s, at),
            },
            LexStep::Tok(t) => if t.kind == TokenT::STRING__ {
                StepRes::SOk { end: t.end, m: m.insert(name, SVal::SStr(t.text)), out }
            } else {
                StepRes::SFail {
                    kind: ErrorKind::TypeMismatchError,
                    row: row_spec(s, t.start),
                    col: col_spec(s, t.start),
                }
            },
        }
    } else if ty == TokenT::BOOL_T {
        match spec_next(s, p) {
            LexStep::Fail { kind, at } => StepRes::SFail {
                kind,
                row: row_spec(s, at),
                col: col_spec(s, at),
            },
            LexStep::Tok(t) => if t.kind == TokenT::BOOL_TRUE__ || t.kind
                == TokenT::BOOL_FALSE__ {
                StepRes::SOk {
                    end: t.end,
                    m: m.insert(name, SVal::SBool(t.kind == TokenT::BOOL_TRUE__)),
                    out,
                }
            } else {
                StepRes::SFail {
                    kind: ErrorKind::TypeMismatchError,
                    row: row_spec(s, t.start),
                    col: col_spec(s, t.start),
                }
            },
        }
    } else if ty == TokenT::INT_T || ty == TokenT::INT_T_64 {
        match spec_expr(s, p, m) {
            ExprRes::EFail { kind, row, col } => StepRes::SFail { kind, row, col },
            ExprRes::EOk { v, end } => {
                let tr = strunc(v);
                if ty == TokenT::INT_T {
                    StepRes::SOk { end, m: m.insert(name, SVal::SInt(sat32(tr))), out }
                } else {
                    StepRes::SOk { end, m: m.insert(name, SVal::SInt64(tr as i64)), out }
                }
            },
        }
    } else {
        StepRes::SFail { kind: ErrorKind::SyntaxError, row: row_spec(s, p), col: col_spec(s, p) }
    }
}

/// The outcome of the declaration head `name -> type`: the declared
/// name and type, with the store seeded with the type's default.
pub enum LhsRes {
    LOk { name: Seq<u8>, ty: TokenT, end: int, m: Map<Seq<u8>, SVal> },
    LFail { kind: ErrorKind, row: int, col: int },
}

/// The declaration head: a fresh variable name, a thin arrow, and a
/// type keyword. Declaring an existing name fails.
pub open spec fn spec_lhs(s: Seq<u8>, p: int, m: Map<Seq<u8>, SVal>) -> LhsRes {
    match spec_next(s, p) {
        LexStep::Fail { kind, at } => LhsRes::LFail {
            kind,
            row: row_spec(s, at),
            col: col_spec(s, at),
        },
        LexStep::Tok(t0) => if t0.kind != TokenT::VARNAME__ {
            LhsRes::LFail {
                kind: ErrorKind::SyntaxError,
                row: row_spec(s, t0.start),
                col: col_spec(s, t0.start),
            }
        } else {
            match spec_next(s, t0.end) {
                LexStep::Fail { kind, at } => LhsRes::LFail {
                    kind,
                    row: row_spec(s, at),
                    col: col_spec(s, at),
                },
                LexStep::Tok(t1) => if t1.kind != TokenT::THIN_ARROW__ {
                    LhsRes::LFail {
                        kind: ErrorKind::SyntaxError,
                        row: row_spec(s, t1.start),
                        col: col_spec(s, t1.start),
                    }
                } else {
                    match spec_next(s, t1.end) {
                        LexStep::Fail { kind, at } => LhsRes::LFail {
                            kind,
                            row: row_spec(s, at),
                            col: col_spec(s, at),
                        },
                        LexStep::Tok(t2) => if !is_type_kind(t2.kind) {
                            LhsRes::LFail {
                                kind: ErrorKind::SyntaxError,
                                row: row_spec(s, t2.start),
                                col: col_spec(s, t2.start),
                            }
                        } else if m.contains_key(t0.text) {
                            LhsRes::LFail {
                                kind: ErrorKind::SyntaxError,
                                row: row_spec(s, t0.start),
                                col: col_spec(s, t0.start),
                            }
                        } else {
                            LhsRes::LOk {
                                name: t0.text,
                                ty: t2.kind,
                                end: t2.end,
                                m: m.insert(t0.text, default_sval(t2.kind)),
                            }
                        },
                    }
                },
            }
        },
    }
}

/// A whole declaration: the head, then an optional initializer after
/// `=`. The token after the head is consumed either way.
pub open spec fn spec_def(s: Seq<u8>, p: int, m: Map<Seq<u8>, SVal>, out: Seq<u8>) -> StepRes {
    match spec_lhs(s, p, m) {
        LhsRes::LFail { kind, row, col } => StepRes::SFail { kind, row, col },
        LhsRes::LOk { name, ty, end, m: m1 } => match spec_next(s, end) {
            LexStep::Fail { kind, at } => StepRes::SFail {
                kind,
                row: row_spec(s, at),
                col: col_spec(s, at),
            },
            LexStep::Tok(t3) => if t3.kind == TokenT::EQUAL__ {
                spec_init(s, t3.end, m1, out, name, ty)
            } else {
                StepRes::SOk { end: t3.end, m: m1, out }
            },
        },
    }
}

/// A reassignment `name = ...`: the name must already be declared, and
/// the right-hand side is parsed exactly as a declaration's initializer
/// for the declared type.
pub open spec fn spec_assign(
    s: Seq<u8>,
    p: int,
    m: Map<Seq<u8>, SVal>,
    out: Seq<u8>,
    name: Seq<u8>,
    nrow: int,
    ncol: int,
) -> StepRes {
    if !m.contains_key(name) {
        StepRes::SFail { kind: ErrorKind::UndefinedVariableError, row: nrow, col: ncol }
    } else {
        match spec_next(s, p) {
            LexStep::Fail { kind, at } => StepRes::SFail {
                kind,
                row: row_spec(s, at),
                col: col_spec(s, at),
            },
            LexStep::Tok(t1) => if t1.kind != TokenT::EQUAL__ {
                StepRes::SFail {
                    kind: ErrorKind::SyntaxError,
                    row: row_spec(s, t1.start),
                    col: col_spec(s, t1.start),
                }
            } else {
                spec_init(s, t1.end, m, out, name, ty_of(m[name]))
            },
        }
    }
}

/// The output statement: a string literal echoed verbatim, or a
/// declared variable rendered with a terminal newline; either needs the
/// closing parenthesis.
pub open spec fn spec_print(s: Seq<u8>, p: int, m: Map<Seq<u8>, SVal>, out: Seq<u8>) -> StepRes {
    match spec_next(s, p) {
        LexStep::Fail { kind, at } => StepRes::SFail {
            kind,
            row: row_spec(s, at),
            col: col_spec(s, at),
        },
        LexStep::Tok(t) => if t.kind == TokenT::STRING__ {
            match spec_next(s, t.end) {
                LexStep::Fail { kind, at } => StepRes::SFail {
                    kind,
                    row: row_spec(s, at),
                    col: col_spec(s, at),
                },
                LexStep::Tok(t2) => if t2.kind == TokenT::CPAR__ {
                    StepRes::SOk { end: t2.end, m, out: out + t.text }
                } else {
                    StepRes::SFail {
                        kind: ErrorKind::SyntaxError,
                        row: row_spec(s, t.start),
                        col: col_spec(s, t.start),
                    }
                },
            }
        } else if t.kind == TokenT::VARNAME__ {
            if !m.contains_key(t.text) {
                StepRes::SFail {
                    kind: ErrorKind::UndefinedVariableError,
                    row: row_spec(s, t.start),
                    col: col_spec(s, t.start),
                }
            } else {
                match spec_next(s, t.end) {
                    LexStep::Fail { kind, at } => StepRes::SFail {
                        kind,
                        row: row_spec(s, at),
                        col: col_spec(s, at),
                    },
                    LexStep::Tok(t2) => if t2.kind == TokenT::CPAR__ {
                        StepRes::SOk {
                            end: t2.end,
                            m,
                            out: out + render_sval(m[t.text]) + seq![NL],
                        }
                    } else {
                        StepRes::SFail {
                            kind: ErrorKind::SyntaxError,
                            row: row_spec(s, t2.start),
                            col: col_spec(s, t2.start),
                        }
                    },
                }
            }
        } else {
            StepRes::SFail {
                kind: ErrorKind::SyntaxError,
                row: row_spec(s, t.start),
                col: col_spec(s, t.start),
            }
        },
    }
}

/// One statement, driven by its first token: a no-op line, an output
/// call, a declaration, a reassignment, or a failure.
pub open spec fn spec_stmt(s: Seq<u8>, p: int, m: Map<Seq<u8>, SVal>, out: Seq<u8>) -> StepRes {
    match spec_next(s, p) {
        LexStep::Fail { kind, at } => StepRes::SFail {
            kind,
            row: row_spec(s, at),
            col: col_spec(s, at),
        },
        LexStep::Tok(t) => if t.kind == TokenT::NL__ || t.kind == TokenT::COMMENT__ {
            StepRes::SOk { end: t.end, m, out }
        } else if t.kind == TokenT::NONE__ && t.text.len() == 0 {
            StepRes::SOk { end: t.end, m, out }
        } else if t.kind == TokenT::FUNC_CALL__ {
            if t.text == kw_write() {
                spec_print(s, t.end, m, out)
            } else {
                StepRes::SFail {
                    kind: ErrorKind::UndefinedVariableError,
                    row: row_spec(s, t.start),
                    col: col_spec(s, t.start),
                }
            }
        } else if t.kind == TokenT::KEY_WORD_DEFINE__ {
            spec_def(s, t.end, m, out)
        } else if t.kind == TokenT::VARNAME__ {
            spec_assign(s, t.end, m, out, t.text, row_spec(s, t.start), col_spec(s, t.start))
        } else {
            StepRes::SFail {
                kind: ErrorKind::SyntaxError,
                row: row_spec(s, t.start),
                col: col_spec(s, t.start),
            }
        },
    }
}

/// A successful postfix scan never moves the cursor backwards.
pub proof fn lemma_postfix_end(s: Seq<u8>, p: int, tmp: Seq<SpecTok>, out: Seq<SpecTok>)
    requires
        0 <= p <= s.len(),
    ensures
        match spec_postfix_loop(s, p, tmp, out) {
            PostRes::POk { end, .. } => p <= end <= s.len(),
            PostRes::PFail { .. } => true,
        },
    decreases s.len() - p,
{
    if 0 <= p < s.len() {
        match spec_next(s, p) {
            LexStep::Fail { .. } => {},
            LexStep::Tok(t) => {
                lemma_spec_next_advances(s, p);
                lemma_postfix_end(s, t.end, tmp, out.push(t));
                lemma_postfix_end(s, t.end, tmp.push(t), out);
                lemma_postfix_end(s, t.end, tmp, out);
                let popped = crate::expr::pop_until_opar(tmp, out);
                lemma_postfix_end(s, t.end, popped.0, popped.1);
                if crate::enums::is_arith_op(t.kind) {
                    let popped2 = crate::expr::pop_ge(
                        tmp,
                        out,
                        crate::enums::prec_of(t.kind) -> 0,
                        t.kind == TokenT::POW__,
                    );
                    lemma_postfix_end(s, t.end, popped2.0.push(t), popped2.1);
                }
            },
        }
    }
}

/// A successful statement makes strict progress through the buffer.
pub proof fn lemma_stmt_advances(s: Seq<u8>, p: int, m: Map<Seq<u8>, SVal>, out: Seq<u8>)
    requires
        0 <= p <= s.len(),
    ensures
        match spec_stmt(s, p, m, out) {
            StepRes::SOk { end, .. } => p <= end <= s.len() && (p < s.len() ==> end > p),
            StepRes::SFail { .. } => true,
        },
{
    lemma_spec_next_advances(s, p);
    match spec_next(s, p) {
        LexStep::Fail { .. } => {},
        LexStep::Tok(t) => {
            if t.kind == TokenT::KEY_WORD_DEFINE__ {
                lemma_def_advances(s, t.end, m, out);
            }
            if t.kind == TokenT::VARNAME__ {
                lemma_assign_advances(
                    s,
                    t.end,
                    m,
                    out,
                    t.text,
                    row_spec(s, t.start),
                    col_spec(s, t.start),
                );
            }
            if t.kind == TokenT::FUNC_CALL__ {
                lemma_print_advances(s, t.end, m, out);
            }
        },
    }
}
pub proof fn lemma_init_advances(
    s: Seq<u8>,
    p: int,
    m: Map<Seq<u8>, SVal>,
    out: Seq<u8>,
    name: Seq<u8>,
    ty: TokenT,
)
    requires
        0 <= p <= s.len(),
    ensures
        match spec_init(s, p, m, out, name, ty) {
            StepRes::SOk { end, .. } => p < end <= s.len(),
            StepRes::SFail { .. } => true,
        },
{
    lemma_spec_next_advances(s, p);
    if ty == TokenT::INT_T || ty == TokenT::INT_T_64 {
        lemma_postfix_end(s, p, Seq::empty(), Seq::empty());
        lemma_expr_advances(s, p, m);
    }
}

/// A successful expression scan makes strict progress.
pub proof fn lemma_expr_advances(s: Seq<u8>, p: int, m: Map<Seq<u8>, SVal>)
    requires
        0 <= p <= s.len(),
    ensures
        match spec_expr(s, p, m) {
            ExprRes::EOk { end, .. } => p < end <= s.len(),
            ExprRes::EFail { .. } => true,
        },
{
    lemma_postfix_end(s, p, Seq::empty(), Seq::empty());
    if 0 <= p < s.len() {
        lemma_spec_next_advances(s, p);
        match spec_next(s, p) {
            LexStep::Fail { .. } => {},
            LexStep::Tok(t) => {
                lemma_postfix_end(s, t.end, Seq::empty(), Seq::<SpecTok>::empty().push(t));
                lemma_postfix_end(s, t.end, Seq::<SpecTok>::empty().push(t), Seq::empty());
                lemma_postfix_end(s, t.end, Seq::empty(), Seq::empty());
                let popped = crate::expr::pop_until_opar(Seq::empty(), Seq::empty());
                lemma_postfix_end(s, t.end, popped.0, popped.1);
                if crate::enums::is_arith_op(t.kind) {
                    let popped2 = crate::expr::pop_ge(
                        Seq::empty(),
                        Seq::empty(),
                        crate::enums::prec_of(t.kind) -> 0,
                        t.kind == TokenT::POW__,
                    );
                    lemma_postfix_end(s, t.end, popped2.0.push(t), popped2.1);
                }
            },
        }
    }
}

pub proof fn lemma_def_advances(s: Seq<u8>, p: int, m: Map<Seq<u8>, SVal>, out: Seq<u8>)
    requires
        0 <= p <= s.len(),
    ensures
        match spec_def(s, p, m, out) {
            StepRes::SOk { end, .. } => p < end <= s.len(),
            StepRes::SFail { .. } => true,
        },
{
    lemma_spec_next_advances(s, p);
    match spec_next(s, p) {
        LexStep::Fail { .. } => {},
        LexStep::Tok(t0) => {
            lemma_spec_next_advances(s, t0.end);
            match spec_next(s, t0.end) {
                LexStep::Fail { .. } => {},
                LexStep::Tok(t1) => {
                    lemma_spec_next_advances(s, t1.end);
                    match spec_next(s, t1.end) {
                        LexStep::Fail { .. } => {},
                        LexStep::Tok(t2) => {
                            lemma_spec_next_advances(s, t2.end);
                            match spec_next(s, t2.end) {
                                LexStep::Fail { .. } => {},
                                LexStep::Tok(t3) => {
                                    if t2.kind == TokenT::STRING_T || t2.kind == TokenT::INT_T
                                        || t2.kind == TokenT::INT_T_64 || t2.kind
                                        == TokenT::BOOL_T {
                                        lemma_init_advances(
                                            s,
                                            t3.end,
                                            m.insert(t0.text, default_sval(t2.kind)),
                                            out,
                                            t0.text,
                                            t2.kind,
                                        );
                                    }
                                },
                            }
                        },
                    }
                },
            }
        },
    }
}

pub proof fn lemma_assign_advances(
    s: Seq<u8>,
    p: int,
    m: Map<Seq<u8>, SVal>,
    out: Seq<u8>,
    name: Seq<u8>,
    nrow: int,
    ncol: int,
)
    requires
        0 <= p <= s.len(),
    ensures
        match spec_assign(s, p, m, out, name, nrow, ncol) {
            StepRes::SOk { end, .. } => p < end <= s.len(),
            StepRes::SFail { .. } => true,
        },
{
    lemma_spec_next_advances(s, p);
    if m.contains_key(name) {
        match spec_next(s, p) {
            LexStep::Fail { .. } => {},
            LexStep::Tok(t1) => {
                if t1.kind == TokenT::EQUAL__ {
                    lemma_init_advances(s, t1.end, m, out, name, ty_of(m[name]));
                }
            },
        }
    }
}

pub proof fn lemma_print_advances(s: Seq<u8>, p: int, m: Map<Seq<u8>, SVal>, out: Seq<u8>)
    requires
        0 <= p <= s.len(),
    ensures
        match spec_print(s, p, m, out) {
            StepRes::SOk { end, .. } => p < end <= s.len(),
            StepRes::SFail { .. } => true,
        },
{
    lemma_spec_next_advances(s, p);
    match spec_next(s, p) {
        LexStep::Fail { .. } => {},
        LexStep::Tok(t) => {
            lemma_spec_next_advances(s, t.end);
        },
    }
}

/// The outcome of a whole run: the final store and output, and the
/// failure that stopped it, if one did.
pub struct RunRes {
    pub end: int,
    pub m: Map<Seq<u8>, SVal>,
    pub out: Seq<u8>,
    pub err: Option<(ErrorKind, int, int)>,
}

/// The interpreter session: statements run in order until the buffer is
/// exhausted or one fails; a failure stops everything after it.
pub open spec fn spec_run(s: Seq<u8>, p: int, m: Map<Seq<u8>, SVal>, out: Seq<u8>) -> RunRes
    decreases s.len() - p,
{
    if !(0 <= p < s.len()) {
        RunRes { end: p, m, out, err: None }
    } else {
        match spec_stmt(s, p, m, out) {
            StepRes::SFail { kind, row, col } => RunRes {
                end: p,
                m,
                out,
                err: Some((kind, row, col)),
            },
            StepRes::SOk { end, m: m2, out: out2 } => {
                proof {
                    lemma_stmt_advances(s, p, m, out);
                }
                spec_run(s, end, m2, out2)
            },
        }
    }
}

} // verus!
