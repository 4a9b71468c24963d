use vstd::prelude::*;

use crate::enums::{is_arith_op, prec_of, special_kind, TokenT};
use crate::expr::{
    drain_res, eval_stoks, has_paren, op_apply, pop_ge, spec_expr, spec_postfix_loop, ExprRes,
    PostRes, SERes,
};
use crate::lexspec::{
    ident_end, is_digit_b, keyword_kind, kw_define, kw_int, kw_true, kw_write, num_end, skip_ws,
    spec_next, LexStep, SpecTok,
};
use crate::numfmt::{all_digits, dec_i, digits_val};
use crate::parsespec::{
    default_sval, sat32, spec_init, spec_lhs, spec_run, spec_stmt, LhsRes, StepRes,
};
use crate::rat::{strunc, Rat};
use crate::stack::{render_sval, SVal};

verus! {

/// The rendering each type's declaration default answers to: the empty
/// string, the single digit zero for both integer widths, and the word
/// for true.
pub open spec fn default_text(ty: TokenT) -> Seq<u8> {
    match ty {
        TokenT::STRING_T => Seq::empty(),
        TokenT::INT_T => seq![48u8],
        TokenT::INT_T_64 => seq![48u8],
        _ => kw_true(),
    }
}

/// Declaring a variable and printing it without reassignment yields the
/// documented default of its type: a declaration head that succeeds
/// leaves the store holding, under the declared name, a value whose
/// rendering is exactly `default_text` of the declared type.
pub proof fn lemma_declare_then_print_default(s: Seq<u8>, p: int, m: Map<Seq<u8>, SVal>)
    ensures
        match spec_lhs(s, p, m) {
            LhsRes::LOk { name, ty, m: m2, .. } => m2.contains_key(name) && m2[name]
                == default_sval(ty) && render_sval(m2[name]) == default_text(ty),
            LhsRes::LFail { .. } => true,
        },
{
    match spec_lhs(s, p, m) {
        LhsRes::LOk { name, ty, m: m2, .. } => {
            assert(m2 == m.insert(name, default_sval(ty)));
            assert(render_sval(SVal::SStr(Seq::empty())) =~= Seq::<u8>::empty());
            assert(dec_i(0) =~= seq![48u8]);
        },
        LhsRes::LFail { .. } => {},
    }
}

/// An expression scan never drops a dangling parenthesis silently:
/// when the shunting-yard scan succeeds, no parenthesis survives into
/// the postfix sequence; an unmatched one always surfaces as a failure
/// instead.
pub proof fn lemma_no_silent_paren_drop(s: Seq<u8>, p: int, tmp: Seq<SpecTok>, out: Seq<SpecTok>)
    ensures
        match spec_postfix_loop(s, p, tmp, out) {
            PostRes::POk { rpn, .. } => !has_paren(rpn),
            PostRes::PFail { .. } => true,
        },
    decreases s.len() - p,
{
    if !(0 <= p < s.len()) {
    } else {
        match spec_next(s, p) {
            LexStep::Fail { .. } => {},
            LexStep::Tok(t) => {
                crate::lexspec::lemma_spec_next_advances(s, p);
                lemma_no_silent_paren_drop(s, t.end, tmp, out);
                lemma_no_silent_paren_drop(s, t.end, tmp, out.push(t));
                lemma_no_silent_paren_drop(s, t.end, tmp.push(t), out);
                let popped = crate::expr::pop_until_opar(tmp, out);
                lemma_no_silent_paren_drop(s, t.end, popped.0, popped.1);
                if is_arith_op(t.kind) {
                    let popped2 = pop_ge(
                        tmp,
                        out,
                        prec_of(t.kind) -> 0,
                        t.kind == TokenT::POW__,
                    );
                    lemma_no_silent_paren_drop(s, t.end, popped2.0.push(t), popped2.1);
                }
            },
        }
    }
}

/// Whether a byte is one of the five arithmetic operator characters.
pub open spec fn is_op_byte(b: u8) -> bool {
    b == crate::enums::PLUS || b == crate::enums::MINUS || b == crate::enums::MULT || b
        == crate::enums::DIV || b == crate::enums::POW
}

/// `x op y`, written in source order.
pub open spec fn apply2(k: TokenT, x: Rat, y: Rat) -> Option<Rat> {
    op_apply(k, y, x)
}

/// The value of a single-digit literal token.
pub open spec fn digit_rat(b: u8) -> Rat {
    Rat { num: (b - 48) as i64, den: 1 }
}

/// A one-digit number token parses to its digit's value.
proof fn lemma_digit_tok_val(b: u8)
    requires
        is_digit_b(b),
    ensures
        all_digits(seq![b]),
        digits_val(seq![b]) == b - 48,
        0 <= digits_val(seq![b]) <= 9,
{
    let t = seq![b];
    assert(t.drop_last() =~= Seq::<u8>::empty());
    assert(digits_val(t) == digits_val(t.drop_last()) * 10 + (b - 48));
}

/// The bytes of the program `define n -> int = <d1 b1 d2 b2 d3>`
/// followed by `write(n)`, one statement per line.
pub open spec fn two_op_program(d1: u8, b1: u8, d2: u8, b2: u8, d3: u8) -> Seq<u8> {
    seq![
        100u8, 101u8, 102u8, 105u8, 110u8, 101u8,  // define
        32u8, 110u8, 32u8,  // n
        45u8, 62u8, 32u8,  // ->
        105u8, 110u8, 116u8, 32u8,  // int
        61u8, 32u8,  // =
        d1, b1, d2, b2, d3, 10u8,  // the expression line
        119u8, 114u8, 105u8, 116u8, 101u8, 40u8, 110u8, 41u8, 10u8,  // write(n)
    ]
}

/// The head of the declaration line tokenizes as the keyword, the
/// name, the arrow, the type, and the equals sign.
#[verifier::rlimit(60)]
proof fn lemma_program_head_tokens(d1: u8, b1: u8, d2: u8, b2: u8, d3: u8)
    requires
        is_digit_b(d1),
        is_digit_b(d2),
        is_digit_b(d3),
        is_op_byte(b1),
        is_op_byte(b2),
    ensures
        ({
            let s = two_op_program(d1, b1, d2, b2, d3);
            &&& spec_next(s, 0) == LexStep::Tok(
                SpecTok { kind: TokenT::KEY_WORD_DEFINE__, text: kw_define(), start: 0, end: 6 },
            )
            &&& spec_next(s, 6) == LexStep::Tok(
                SpecTok { kind: TokenT::VARNAME__, text: seq![110u8], start: 7, end: 8 },
            )
            &&& spec_next(s, 8) == LexStep::Tok(
                SpecTok { kind: TokenT::THIN_ARROW__, text: seq![45u8, 62u8], start: 9, end: 11 },
            )
            &&& spec_next(s, 11) == LexStep::Tok(
                SpecTok { kind: TokenT::INT_T, text: kw_int(), start: 12, end: 15 },
            )
            &&& spec_next(s, 15) == LexStep::Tok(
                SpecTok { kind: TokenT::EQUAL__, text: seq![61u8], start: 16, end: 17 },
            )
        }),
{
    let s = two_op_program(d1, b1, d2, b2, d3);
    assert(s.len() == 33);
    // define
    assert(skip_ws(s, 0) == 0);
    assert(ident_end(s, 6) == 6);
    assert(ident_end(s, 5) == 6);
    assert(ident_end(s, 4) == 6);
    assert(ident_end(s, 3) == 6);
    assert(ident_end(s, 2) == 6);
    assert(ident_end(s, 1) == 6);
    assert(ident_end(s, 0) == 6);
    assert(s.subrange(0, 6) =~= kw_define());
    // n
    assert(skip_ws(s, 7) == 7);
    assert(skip_ws(s, 6) == 7);
    assert(ident_end(s, 8) == 8);
    assert(ident_end(s, 7) == 8);
    assert(s.subrange(7, 8) =~= seq![110u8]);
    assert(keyword_kind(seq![110u8]) is None);
    // ->
    assert(skip_ws(s, 9) == 9);
    assert(skip_ws(s, 8) == 9);
    // int
    assert(skip_ws(s, 12) == 12);
    assert(skip_ws(s, 11) == 12);
    assert(ident_end(s, 15) == 15);
    assert(ident_end(s, 14) == 15);
    assert(ident_end(s, 13) == 15);
    assert(ident_end(s, 12) == 15);
    assert(s.subrange(12, 15) =~= kw_int());
    // =
    assert(skip_ws(s, 16) == 16);
    assert(skip_ws(s, 15) == 16);
}

/// The expression line scans to the precedence-ordered postfix
/// sequence, ending just past its newline.
#[verifier::rlimit(100)]
proof fn lemma_program_expr_scan(d1: u8, b1: u8, d2: u8, b2: u8, d3: u8)
    requires
        is_digit_b(d1),
        is_digit_b(d2),
        is_digit_b(d3),
        is_op_byte(b1),
        is_op_byte(b2),
    ensures
        ({
            let s = two_op_program(d1, b1, d2, b2, d3);
            let n1 = SpecTok { kind: TokenT::NUMBER__, text: seq![d1], start: 18, end: 19 };
            let o1 = SpecTok {
                kind: (special_kind(b1) -> 0),
                text: seq![b1],
                start: 19,
                end: 20,
            };
            let n2 = SpecTok { kind: TokenT::NUMBER__, text: seq![d2], start: 20, end: 21 };
            let o2 = SpecTok {
                kind: (special_kind(b2) -> 0),
                text: seq![b2],
                start: 21,
                end: 22,
            };
            let n3 = SpecTok { kind: TokenT::NUMBER__, text: seq![d3], start: 22, end: 23 };
            let k1 = special_kind(b1) -> 0;
            let k2 = special_kind(b2) -> 0;
            let p1 = prec_of(k1) -> 0;
            let p2 = prec_of(k2) -> 0;
            let rpn = if p1 > p2 || (p1 == p2 && k2 != TokenT::POW__) {
                seq![n1, n2, o1, n3, o2]
            } else {
                seq![n1, n2, n3, o2, o1]
            };
            spec_postfix_loop(s, 17, Seq::empty(), Seq::empty()) == (PostRes::POk {
                rpn,
                end: 24int,
            })
        }),
{
    let s = two_op_program(d1, b1, d2, b2, d3);
    assert(s.len() == 33);
    let n1 = SpecTok { kind: TokenT::NUMBER__, text: seq![d1], start: 18, end: 19 };
    let o1 = SpecTok { kind: (special_kind(b1) -> 0), text: seq![b1], start: 19, end: 20 };
    let n2 = SpecTok { kind: TokenT::NUMBER__, text: seq![d2], start: 20, end: 21 };
    let o2 = SpecTok { kind: (special_kind(b2) -> 0), text: seq![b2], start: 21, end: 22 };
    let n3 = SpecTok { kind: TokenT::NUMBER__, text: seq![d3], start: 22, end: 23 };
    let k1 = special_kind(b1) -> 0;
    let k2 = special_kind(b2) -> 0;
    let p1 = prec_of(k1) -> 0;
    let p2 = prec_of(k2) -> 0;
    // The tokens of the line.
    assert(skip_ws(s, 18) == 18);
    assert(skip_ws(s, 17) == 18);
    assert(num_end(s, 19) == 19);
    assert(num_end(s, 18) == 19);
    assert(s.subrange(18, 19) =~= seq![d1]);
    assert(spec_next(s, 17) == LexStep::Tok(n1));
    assert(skip_ws(s, 19) == 19);
    assert(spec_next(s, 19) == LexStep::Tok(o1));
    assert(skip_ws(s, 20) == 20);
    assert(num_end(s, 21) == 21);
    assert(num_end(s, 20) == 21);
    assert(s.subrange(20, 21) =~= seq![d2]);
    assert(spec_next(s, 20) == LexStep::Tok(n2));
    assert(skip_ws(s, 21) == 21);
    assert(spec_next(s, 21) == LexStep::Tok(o2));
    assert(skip_ws(s, 22) == 22);
    assert(num_end(s, 23) == 23);
    assert(num_end(s, 22) == 23);
    assert(s.subrange(22, 23) =~= seq![d3]);
    assert(spec_next(s, 22) == LexStep::Tok(n3));
    assert(skip_ws(s, 23) == 23);
    assert(spec_next(s, 23) == LexStep::Tok(
        SpecTok { kind: TokenT::NL__, text: seq![10u8], start: 23, end: 24 },
    ));
    // The scan, one step at a time.
    let e0 = Seq::<SpecTok>::empty();
    assert(spec_postfix_loop(s, 17, e0, e0) == spec_postfix_loop(s, 19, e0, e0.push(n1)));
    assert(pop_ge(e0, e0.push(n1), p1, k1 == TokenT::POW__) == (e0, e0.push(n1)));
    assert(spec_postfix_loop(s, 19, e0, e0.push(n1)) == spec_postfix_loop(
        s,
        20,
        e0.push(o1),
        e0.push(n1),
    ));
    assert(spec_postfix_loop(s, 20, e0.push(o1), e0.push(n1)) == spec_postfix_loop(
        s,
        21,
        e0.push(o1),
        e0.push(n1).push(n2),
    ));
    let tmp3 = e0.push(o1);
    let out3 = e0.push(n1).push(n2);
    if p1 > p2 || (p1 == p2 && k2 != TokenT::POW__) {
        assert(pop_ge(e0, out3.push(o1), p2, k2 == TokenT::POW__) == (e0, out3.push(o1)));
        assert(tmp3.drop_last() =~= e0);
        assert(pop_ge(tmp3, out3, p2, k2 == TokenT::POW__) == (e0, out3.push(o1)));
        assert(spec_postfix_loop(s, 21, tmp3, out3) == spec_postfix_loop(
            s,
            22,
            e0.push(o2),
            out3.push(o1),
        ));
        assert(spec_postfix_loop(s, 22, e0.push(o2), out3.push(o1)) == spec_postfix_loop(
            s,
            23,
            e0.push(o2),
            out3.push(o1).push(n3),
        ));
        let out5 = out3.push(o1).push(n3);
        assert(spec_postfix_loop(s, 23, e0.push(o2), out5) == drain_res(e0.push(o2), out5, 24));
        let rpn = out5 + e0.push(o2).reverse();
        assert(rpn =~= seq![n1, n2, o1, n3, o2]);
        assert(!has_paren(rpn)) by {
            assert(forall|i: int|
                0 <= i < 5 ==> !crate::expr::is_parent_kind(#[trigger] rpn[i].kind));
        }
        assert(seq![n1, n2, o1, n3, o2] =~= rpn);
    } else {
        assert(pop_ge(tmp3, out3, p2, k2 == TokenT::POW__) == (tmp3, out3));
        assert(spec_postfix_loop(s, 21, tmp3, out3) == spec_postfix_loop(
            s,
            22,
            tmp3.push(o2),
            out3,
        ));
        assert(spec_postfix_loop(s, 22, tmp3.push(o2), out3) == spec_postfix_loop(
            s,
            23,
            tmp3.push(o2),
            out3.push(n3),
        ));
        let out5 = out3.push(n3);
        assert(spec_postfix_loop(s, 23, tmp3.push(o2), out5) == drain_res(
            tmp3.push(o2),
            out5,
            24,
        ));
        let rpn = out5 + tmp3.push(o2).reverse();
        assert(rpn =~= seq![n1, n2, n3, o2, o1]);
        assert(!has_paren(rpn)) by {
            assert(forall|i: int|
                0 <= i < 5 ==> !crate::expr::is_parent_kind(#[trigger] rpn[i].kind));
        }
        assert(seq![n1, n2, n3, o2, o1] =~= rpn);
    }
}

/// The postfix sequence of the expression line evaluates to the nested
/// application the precedence order prescribes.
#[verifier::rlimit(100)]
proof fn lemma_program_expr_value(
    d1: u8,
    b1: u8,
    d2: u8,
    b2: u8,
    d3: u8,
    m: Map<Seq<u8>, crate::stack::SVal>,
)
    requires
        is_digit_b(d1),
        is_digit_b(d2),
        is_digit_b(d3),
        is_op_byte(b1),
        is_op_byte(b2),
    ensures
        ({
            let s = two_op_program(d1, b1, d2, b2, d3);
            match two_op_direct(d1, b1, d2, b2, d3) {
                Some(v) => spec_expr(s, 17, m) == (ExprRes::EOk { v, end: 24int }),
                None => spec_expr(s, 17, m) is EFail,
            }
        }),
{
    lemma_program_expr_scan(d1, b1, d2, b2, d3);
    let s = two_op_program(d1, b1, d2, b2, d3);
    let n1 = SpecTok { kind: TokenT::NUMBER__, text: seq![d1], start: 18, end: 19 };
    let o1 = SpecTok { kind: (special_kind(b1) -> 0), text: seq![b1], start: 19, end: 20 };
    let n2 = SpecTok { kind: TokenT::NUMBER__, text: seq![d2], start: 20, end: 21 };
    let o2 = SpecTok { kind: (special_kind(b2) -> 0), text: seq![b2], start: 21, end: 22 };
    let n3 = SpecTok { kind: TokenT::NUMBER__, text: seq![d3], start: 22, end: 23 };
    let k1 = special_kind(b1) -> 0;
    let k2 = special_kind(b2) -> 0;
    let p1 = prec_of(k1) -> 0;
    let p2 = prec_of(k2) -> 0;
    let r1 = digit_rat(d1);
    let r2 = digit_rat(d2);
    let r3 = digit_rat(d3);
    lemma_digit_tok_val(d1);
    lemma_digit_tok_val(d2);
    lemma_digit_tok_val(d3);
    assert(is_arith_op(k1));
    assert(is_arith_op(k2));
    let e0 = Seq::<Rat>::empty();
    if p1 > p2 || (p1 == p2 && k2 != TokenT::POW__) {
        let rpn = seq![n1, n2, o1, n3, o2];
        assert(rpn.drop_first() =~= seq![n2, o1, n3, o2]);
        assert(seq![n2, o1, n3, o2].drop_first() =~= seq![o1, n3, o2]);
        assert(seq![o1, n3, o2].drop_first() =~= seq![n3, o2]);
        assert(seq![n3, o2].drop_first() =~= seq![o2]);
        assert(seq![o2].drop_first() =~= Seq::<SpecTok>::empty());
        assert(eval_stoks(s, rpn, m, e0) == eval_stoks(s, seq![n2, o1, n3, o2], m, e0.push(r1)));
        assert(eval_stoks(s, seq![n2, o1, n3, o2], m, e0.push(r1)) == eval_stoks(
            s,
            seq![o1, n3, o2],
            m,
            e0.push(r1).push(r2),
        ));
        let vs2 = e0.push(r1).push(r2);
        assert(vs2.last() == r2 && vs2[0] == r1);
        assert(vs2.take(0) =~= e0);
        match op_apply(k1, r2, r1) {
            Some(v12) => {
                assert(eval_stoks(s, seq![o1, n3, o2], m, vs2) == eval_stoks(
                    s,
                    seq![n3, o2],
                    m,
                    e0.push(v12),
                ));
                assert(eval_stoks(s, seq![n3, o2], m, e0.push(v12)) == eval_stoks(
                    s,
                    seq![o2],
                    m,
                    e0.push(v12).push(r3),
                ));
                let vs4 = e0.push(v12).push(r3);
                assert(vs4.last() == r3 && vs4[0] == v12);
                assert(vs4.take(0) =~= e0);
                match op_apply(k2, r3, v12) {
                    Some(v) => {
                        assert(eval_stoks(s, seq![o2], m, vs4) == eval_stoks(
                            s,
                            Seq::empty(),
                            m,
                            e0.push(v),
                        ));
                        assert(eval_stoks(s, rpn, m, e0) == SERes::SVal_(v));
                    },
                    None => {
                        assert(eval_stoks(s, rpn, m, e0) is SFailk);
                    },
                }
            },
            None => {
                assert(eval_stoks(s, rpn, m, e0) is SFailk);
            },
        }
    } else {
        let rpn = seq![n1, n2, n3, o2, o1];
        assert(rpn.drop_first() =~= seq![n2, n3, o2, o1]);
        assert(seq![n2, n3, o2, o1].drop_first() =~= seq![n3, o2, o1]);
        assert(seq![n3, o2, o1].drop_first() =~= seq![o2, o1]);
        assert(seq![o2, o1].drop_first() =~= seq![o1]);
        assert(seq![o1].drop_first() =~= Seq::<SpecTok>::empty());
        assert(eval_stoks(s, rpn, m, e0) == eval_stoks(s, seq![n2, n3, o2, o1], m, e0.push(r1)));
        assert(eval_stoks(s, seq![n2, n3, o2, o1], m, e0.push(r1)) == eval_stoks(
            s,
            seq![n3, o2, o1],
            m,
            e0.push(r1).push(r2),
        ));
        assert(eval_stoks(s, seq![n3, o2, o1], m, e0.push(r1).push(r2)) == eval_stoks(
            s,
            seq![o2, o1],
            m,
            e0.push(r1).push(r2).push(r3),
        ));
        let vs3 = e0.push(r1).push(r2).push(r3);
        assert(vs3.last() == r3 && vs3[1] == r2);
        assert(vs3.take(1) =~= e0.push(r1));
        match op_apply(k2, r3, r2) {
            Some(v23) => {
                assert(eval_stoks(s, seq![o2, o1], m, vs3) == eval_stoks(
                    s,
                    seq![o1],
                    m,
                    e0.push(r1).push(v23),
                ));
                let vs5 = e0.push(r1).push(v23);
                assert(vs5.last() == v23 && vs5[0] == r1);
                assert(vs5.take(0) =~= e0);
                match op_apply(k1, v23, r1) {
                    Some(v) => {
                        assert(eval_stoks(s, seq![o1], m, vs5) == eval_stoks(
                            s,
                            Seq::empty(),
                            m,
                            e0.push(v),
                        ));
                        assert(eval_stoks(s, rpn, m, e0) == SERes::SVal_(v));
                    },
                    None => {
                        assert(eval_stoks(s, rpn, m, e0) is SFailk);
                    },
                }
            },
            None => {
                assert(eval_stoks(s, rpn, m, e0) is SFailk);
            },
        }
    }
}

/// The value of `d1 b1 d2 b2 d3` under standard precedence: the first
/// operator applies first exactly when it binds at least as tightly as
/// the second (equal precedence associating left, `^` to the right).
pub open spec fn two_op_direct(d1: u8, b1: u8, d2: u8, b2: u8, d3: u8) -> Option<Rat> {
    let k1 = special_kind(b1) -> 0;
    let k2 = special_kind(b2) -> 0;
    let p1 = prec_of(k1) -> 0;
    let p2 = prec_of(k2) -> 0;
    if p1 > p2 || (p1 == p2 && k2 != TokenT::POW__) {
        match apply2(k1, digit_rat(d1), digit_rat(d2)) {
            Some(v12) => apply2(k2, v12, digit_rat(d3)),
            None => None,
        }
    } else {
        match apply2(k2, digit_rat(d2), digit_rat(d3)) {
            Some(v23) => apply2(k1, digit_rat(d1), v23),
            None => None,
        }
    }
}

/// The output statement line prints the declared variable and a
/// newline.
#[verifier::rlimit(60)]
proof fn lemma_program_write_line(
    d1: u8,
    b1: u8,
    d2: u8,
    b2: u8,
    d3: u8,
    m: Map<Seq<u8>, crate::stack::SVal>,
    out: Seq<u8>,
)
    requires
        is_digit_b(d1),
        is_digit_b(d2),
        is_digit_b(d3),
        is_op_byte(b1),
        is_op_byte(b2),
        m.contains_key(seq![110u8]),
    ensures
        ({
            let s = two_op_program(d1, b1, d2, b2, d3);
            spec_stmt(s, 24, m, out) == (StepRes::SOk {
                end: 32int,
                m,
                out: out + render_sval(m[seq![110u8]]) + seq![10u8],
            })
        }),
{
    let s = two_op_program(d1, b1, d2, b2, d3);
    assert(s.len() == 33);
    // write(
    assert(skip_ws(s, 24) == 24);
    assert(ident_end(s, 29) == 29);
    assert(ident_end(s, 28) == 29);
    assert(ident_end(s, 27) == 29);
    assert(ident_end(s, 26) == 29);
    assert(ident_end(s, 25) == 29);
    assert(ident_end(s, 24) == 29);
    assert(s.subrange(24, 29) =~= kw_write());
    assert(keyword_kind(kw_write()) is None);
    assert(spec_next(s, 24) == LexStep::Tok(
        SpecTok { kind: TokenT::FUNC_CALL__, text: kw_write(), start: 24, end: 30 },
    ));
    // n
    assert(skip_ws(s, 30) == 30);
    assert(ident_end(s, 31) == 31);
    assert(ident_end(s, 30) == 31);
    assert(s.subrange(30, 31) =~= seq![110u8]);
    assert(keyword_kind(seq![110u8]) is None);
    assert(spec_next(s, 30) == LexStep::Tok(
        SpecTok { kind: TokenT::VARNAME__, text: seq![110u8], start: 30, end: 31 },
    ));
    // )
    assert(skip_ws(s, 31) == 31);
    assert(spec_next(s, 31) == LexStep::Tok(
        SpecTok { kind: TokenT::CPAR__, text: seq![41u8], start: 31, end: 32 },
    ));
}

/// Declaring `n` as an integer from a two-operator expression and then
/// writing `n` outputs exactly the decimal rendering of the expression
/// evaluated with standard precedence (`^` above `*` and `/`, those
/// above `+` and `-`) and left-to-right association among
/// equal-precedence operators (`^` associating right), truncated toward
/// zero and clamped to 32 bits; when the expression fails (as division
/// by zero does), the run reports the failure and outputs nothing.
#[verifier::rlimit(100)]
pub proof fn lemma_define_write_two_op_program(d1: u8, b1: u8, d2: u8, b2: u8, d3: u8)
    requires
        is_digit_b(d1),
        is_digit_b(d2),
        is_digit_b(d3),
        is_op_byte(b1),
        is_op_byte(b2),
    ensures
        ({
            let s = two_op_program(d1, b1, d2, b2, d3);
            let sr = spec_run(s, 0, Map::empty(), Seq::empty());
            match two_op_direct(d1, b1, d2, b2, d3) {
                Some(v) => sr.err is None && sr.out == dec_i(sat32(strunc(v)) as int)
                    + seq![10u8],
                None => sr.err is Some && sr.out == Seq::<u8>::empty(),
            }
        }),
{
    let s = two_op_program(d1, b1, d2, b2, d3);
    let m0 = Map::<Seq<u8>, crate::stack::SVal>::empty();
    let out0 = Seq::<u8>::empty();
    assert(s.len() == 33);
    lemma_program_head_tokens(d1, b1, d2, b2, d3);
    let name = seq![110u8];
    assert(!m0.contains_key(name));
    let m1 = m0.insert(name, default_sval(TokenT::INT_T));
    assert(spec_lhs(s, 6, m0) == (LhsRes::LOk { name, ty: TokenT::INT_T, end: 15int, m: m1 }));
    lemma_program_expr_value(d1, b1, d2, b2, d3, m1);
    match two_op_direct(d1, b1, d2, b2, d3) {
        Some(v) => {
            let c = sat32(strunc(v));
            let m2 = m1.insert(name, crate::stack::SVal::SInt(c));
            assert(spec_init(s, 17, m1, out0, name, TokenT::INT_T) == (StepRes::SOk {
                end: 24int,
                m: m2,
                out: out0,
            }));
            assert(spec_stmt(s, 0, m0, out0) == (StepRes::SOk { end: 24int, m: m2, out: out0 }));
            assert(m2.contains_key(name));
            lemma_program_write_line(d1, b1, d2, b2, d3, m2, out0);
            let out2 = out0 + render_sval(m2[name]) + seq![10u8];
            assert(spec_run(s, 0, m0, out0) == spec_run(s, 24, m2, out0));
            assert(spec_run(s, 24, m2, out0) == spec_run(s, 32, m2, out2));
            assert(spec_next(s, 32) == LexStep::Tok(
                SpecTok { kind: TokenT::NL__, text: seq![10u8], start: 32, end: 33 },
            )) by {
                assert(skip_ws(s, 32) == 32);
            }
            assert(spec_stmt(s, 32, m2, out2) == (StepRes::SOk { end: 33int, m: m2, out: out2 }));
            assert(spec_run(s, 32, m2, out2) == spec_run(s, 33, m2, out2));
            assert(spec_run(s, 33, m2, out2) == (crate::parsespec::RunRes {
                end: 33int,
                m: m2,
                out: out2,
                err: None,
            }));
            assert(render_sval(m2[name]) == dec_i(c as int));
            assert(out2 =~= dec_i(c as int) + seq![10u8]);
        },
        None => {
            assert(spec_expr(s, 17, m1) is EFail);
            assert(spec_init(s, 17, m1, out0, name, TokenT::INT_T) is SFail);
            assert(spec_stmt(s, 0, m0, out0) is SFail);
            assert(spec_run(s, 0, m0, out0).err is Some);
            assert(spec_run(s, 0, m0, out0).out == out0);
        },
    }
}

} // verus!
