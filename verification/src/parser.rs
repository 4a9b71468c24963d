use vstd::prelude::*;

use crate::enums::{TokenT, NL};
use crate::errors::{make_error, ErrorKind, InterpError};
use crate::expr::ArithmaticParser;
use crate::lexer::KasperLexer;
use crate::lexspec::kw_write;
use crate::parsespec::{
    lemma_stmt_advances, spec_assign, spec_def, spec_init, spec_lhs, spec_print, spec_run,
    spec_stmt, LhsRes, StepRes,
};
use crate::rat::{rat_trunc, sat_i32, Rat};
use crate::stack::{SVal, Stack};
use crate::token::Token;

verus! {

/// Appends a byte slice to a byte vector.
pub fn append_bytes(dst: &mut Vec<u8>, src: &[u8])
    ensures
        final(dst)@ == old(dst)@ + src@,
{
    let n: usize = src.len();
    let mut i: usize = 0;
    while i < n
        invariant
            n == src@.len(),
            0 <= i <= n,
            dst@ == old(dst)@ + src@.subrange(0, i as int),
        decreases n - i,
    {
        let b: u8 = src[i];
        dst.push(b);
        i = i + 1;
        proof {
            assert(old(dst)@ + src@.subrange(0, i as int) =~= (old(dst)@ + src@.subrange(
                0,
                i - 1,
            )).push(src@[i - 1]));
        }
    }
    proof {
        assert(src@.subrange(0, n as int) =~= src@);
    }
}

/// Whether the text is the output keyword.
pub fn is_write(v: &Vec<u8>) -> (r: bool)
    ensures
        r == (v@ == kw_write()),
{
    if v.len() == 5 && v[0] == 119 && v[1] == 114 && v[2] == 105 && v[3] == 116 && v[4] == 101 {
        proof {
            assert(v@ =~= kw_write());
        }
        true
    } else {
        proof {
            if v@ == kw_write() {
                assert(v@.len() == 5 && v@[0] == 119 && v@[1] == 114 && v@[2] == 105 && v@[3]
                    == 116 && v@[4] == 101);
            }
        }
        false
    }
}

/// The numeric value of a 32-bit store entry (zero for other types).
pub open spec fn sint_of(v: SVal) -> int {
    match v {
        SVal::SInt(x) => x as int,
        _ => 0,
    }
}

/// Division truncating toward zero, as the machine divide behaves.
pub open spec fn tdiv(a: int, b: int) -> int {
    if (a >= 0) == (b >= 0) {
        abs_int(a) / abs_int(b)
    } else {
        -(abs_int(a) / abs_int(b))
    }
}

pub open spec fn abs_int(a: int) -> int {
    if a < 0 {
        -a
    } else {
        a
    }
}

/// A variable in flight during a declaration: its name, the raw text of
/// its initializer, and its parsed and declared types.
pub struct Variable {
    pub name: Vec<u8>,
    pub value: Vec<u8>,
    pub var_parsed_type: TokenT,
    pub declared_type: TokenT,
}

impl Variable {
    /// Builds a variable record from its parts.
    pub fn new(nm: Vec<u8>, v: Vec<u8>, dt: TokenT, pt: TokenT) -> (r: Variable)
        ensures
            r.name@ == nm@,
            r.value@ == v@,
            r.declared_type == dt,
            r.var_parsed_type == pt,
    {
        Variable { name: nm, value: v, var_parsed_type: pt, declared_type: dt }
    }

    /// An empty record of no declared type.
    pub fn empty() -> (r: Variable)
        ensures
            r.name@ == Seq::<u8>::empty(),
            r.value@ == Seq::<u8>::empty(),
            r.declared_type == TokenT::NONE__,
            r.var_parsed_type == TokenT::NONE__,
    {
        Variable {
            name: Vec::new(),
            value: Vec::new(),
            var_parsed_type: TokenT::NONE__,
            declared_type: TokenT::NONE__,
        }
    }

    /// Whether the declared type is numeric.
    pub fn is_number(&self) -> (r: bool)
        ensures
            r == (self.declared_type == TokenT::INT_T || self.declared_type == TokenT::INT_T_64),
    {
        self.declared_type == TokenT::INT_T || self.declared_type == TokenT::INT_T_64
    }
}

/// The statement dispatcher: pulls tokens from the lexer, routes each
/// line to declaration, reassignment or output handling, and collects
/// everything the program writes.
pub struct KasperParser {
    pub lexer: KasperLexer,
    pub ap: ArithmaticParser,
    pub stack: Stack,
    pub output: Vec<u8>,
}

impl KasperParser {
    /// The dispatcher is consistent when its lexer and store are, and
    /// the expression stack is at rest.
    pub open spec fn wf(self) -> bool {
        &&& self.lexer.wf()
        &&& self.stack.wf()
        &&& self.ap.iostack@.len() == 0
    }

    /// Builds a dispatcher over a lexer, with an empty store and no
    /// output yet.
    pub fn new(lex: KasperLexer) -> (r: KasperParser)
        requires
            lex.wf(),
        ensures
            r.wf(),
            r.lexer == lex,
            r.stack.smap() == Map::<Seq<u8>, SVal>::empty(),
            r.output@ == Seq::<u8>::empty(),
    {
        KasperParser {
            lexer: lex,
            ap: ArithmaticParser::new(),
            stack: Stack::new(),
            output: Vec::new(),
        }
    }

    /// Whether the name is declared in the store.
    pub fn defined(&self, key: &Vec<u8>) -> (r: bool)
        requires
            self.stack.wf(),
        ensures
            r == self.stack.smap().contains_key(key@),
    {
        self.stack.defined(key)
    }

    /// The name's string value, when it is declared as a string.
    pub fn get_str_var(&self, key: &Vec<u8>) -> (r: Option<Vec<u8>>)
        requires
            self.stack.wf(),
        ensures
            match r {
                Some(v) => self.stack.smap().contains_key(key@) && self.stack.smap()[key@]
                    == SVal::SStr(v@),
                None => !(self.stack.smap().contains_key(key@) && self.stack.smap()[key@]
                    is SStr),
            },
    {
        self.stack.get_from_str_map(key)
    }

    /// The name's numeric value under the requested integer type.
    pub fn get_int_var(&self, key: &Vec<u8>, type_: TokenT) -> (r: Option<i64>)
        requires
            self.stack.wf(),
        ensures
            match r {
                Some(v) => self.stack.smap().contains_key(key@) && match self.stack.smap()[key@] {
                    SVal::SInt(x) => type_ == TokenT::INT_T && v == x as i64,
                    SVal::SInt64(x) => type_ == TokenT::INT_T_64 && v == x,
                    _ => false,
                },
                None => true,
            },
    {
        if type_ == TokenT::INT_T {
            match self.stack.get_from_int_map(key) {
                Some(v) => Some(v as i64),
                None => None,
            }
        } else if type_ == TokenT::INT_T_64 {
            self.stack.get_from_int_map_64(key)
        } else {
            None
        }
    }

    /// Adds a constant to a 32-bit variable, when the name is declared
    /// as one; otherwise does nothing.
    pub fn add(&mut self, variable_name: &Vec<u8>, number: i32)
        requires
            old(self).stack.wf(),
            old(self).stack.smap().contains_key(variable_name@) && old(
                self,
            ).stack.smap()[variable_name@] is SInt ==> i32::MIN <= sint_of(old(self).stack.smap()[variable_name@]) + number
                <= i32::MAX,
        ensures
            final(self).stack.wf(),
            final(self).lexer == old(self).lexer,
            final(self).output == old(self).output,
            ({
                let m = old(self).stack.smap();
                if m.contains_key(variable_name@) && m[variable_name@] is SInt {
                    final(self).stack.smap() == m.insert(
                        variable_name@,
                        SVal::SInt((sint_of(m[variable_name@]) + number) as i32),
                    )
                } else {
                    final(self).stack.smap() == m
                }
            }),
    {
        match self.stack.get_from_int_map(variable_name) {
            Some(v) => {
                self.stack.push_int_map(variable_name, v + number);
            },
            None => {},
        }
    }

    /// Subtracts a constant from a 32-bit variable, when the name is
    /// declared as one; otherwise does nothing.
    pub fn sub(&mut self, variable_name: &Vec<u8>, number: i32)
        requires
            old(self).stack.wf(),
            old(self).stack.smap().contains_key(variable_name@) && old(
                self,
            ).stack.smap()[variable_name@] is SInt ==> i32::MIN <= sint_of(old(self).stack.smap()[variable_name@]) - number
                <= i32::MAX,
        ensures
            final(self).stack.wf(),
            final(self).lexer == old(self).lexer,
            final(self).output == old(self).output,
            ({
                let m = old(self).stack.smap();
                if m.contains_key(variable_name@) && m[variable_name@] is SInt {
                    final(self).stack.smap() == m.insert(
                        variable_name@,
                        SVal::SInt((sint_of(m[variable_name@]) - number) as i32),
                    )
                } else {
                    final(self).stack.smap() == m
                }
            }),
    {
        match self.stack.get_from_int_map(variable_name) {
            Some(v) => {
                self.stack.push_int_map(variable_name, v - number);
            },
            None => {},
        }
    }

    /// Multiplies a 32-bit variable by a constant, when the name is
    /// declared as one; otherwise does nothing.
    pub fn multiply(&mut self, variable_name: &Vec<u8>, number: i32)
        requires
            old(self).stack.wf(),
            old(self).stack.smap().contains_key(variable_name@) && old(
                self,
            ).stack.smap()[variable_name@] is SInt ==> i32::MIN <= sint_of(old(self).stack.smap()[variable_name@]) * number
                <= i32::MAX,
        ensures
            final(self).stack.wf(),
            final(self).lexer == old(self).lexer,
            final(self).output == old(self).output,
            ({
                let m = old(self).stack.smap();
                if m.contains_key(variable_name@) && m[variable_name@] is SInt {
                    final(self).stack.smap() == m.insert(
                        variable_name@,
                        SVal::SInt((sint_of(m[variable_name@]) * number) as i32),
                    )
                } else {
                    final(self).stack.smap() == m
                }
            }),
    {
        match self.stack.get_from_int_map(variable_name) {
            Some(v) => {
                self.stack.push_int_map(variable_name, v * number);
            },
            None => {},
        }
    }

    /// Divides a 32-bit variable by a constant (truncating toward
    /// zero), when the name is declared as one; otherwise does nothing.
    pub fn divide(&mut self, variable_name: &Vec<u8>, number: i32)
        requires
            old(self).stack.wf(),
            number != 0,
            old(self).stack.smap().contains_key(variable_name@) && old(
                self,
            ).stack.smap()[variable_name@] is SInt ==> !(sint_of(old(self).stack.smap()[variable_name@]) == i32::MIN && number
                == -1),
        ensures
            final(self).stack.wf(),
            final(self).lexer == old(self).lexer,
            final(self).output == old(self).output,
            ({
                let m = old(self).stack.smap();
                if m.contains_key(variable_name@) && m[variable_name@] is SInt {
                    final(self).stack.smap() == m.insert(
                        variable_name@,
                        SVal::SInt(tdiv(sint_of(m[variable_name@]), number as int) as i32),
                    )
                } else {
                    final(self).stack.smap() == m
                }
            }),
    {
        match self.stack.get_from_int_map(variable_name) {
            Some(v) => {
                let neg: bool = (v < 0) != (number < 0);
                let mag_v: u32 = if v >= 0 {
                    v as u32
                } else {
                    (-(v as i64)) as u32
                };
                let mag_n: u32 = if number >= 0 {
                    number as u32
                } else {
                    (-(number as i64)) as u32
                };
                let mq: u32 = mag_v / mag_n;
                proof {
                    assert(mag_v as int == abs_int(v as int));
                    assert(mag_n as int == abs_int(number as int));
                    vstd::arithmetic::div_mod::lemma_fundamental_div_mod(
                        mag_v as int,
                        mag_n as int,
                    );
                    assert(mq as int <= mag_v as int) by (nonlinear_arith)
                        requires
                            mag_v as int == (mag_n as int) * (mq as int) + (mag_v as int) % (
                            mag_n as int),
                            (mag_v as int) % (mag_n as int) >= 0,
                            mag_n as int >= 1,
                            mq as int >= 0,
                    ;
                    if !neg && mag_v as int == 0x8000_0000 {
                        assert(v == i32::MIN && number < 0);
                        assert(mag_n as int >= 2);
                        assert(mq as int <= 0x4000_0000) by (nonlinear_arith)
                            requires
                                mag_v as int == (mag_n as int) * (mq as int) + (mag_v as int) % (
                                mag_n as int),
                                (mag_v as int) % (mag_n as int) >= 0,
                                mag_n as int >= 2,
                                mq as int >= 0,
                                mag_v as int == 0x8000_0000,
                        ;
                    }
                }
                let q: i32 = if neg {
                    (-(mq as i64)) as i32
                } else {
                    mq as i32
                };
                proof {
                    assert(q as int == tdiv(v as int, number as int));
                }
                self.stack.push_int_map(variable_name, q);
            },
            None => {},
        }
    }

    /// Shifts a 32-bit variable left by the given number of bits, when
    /// the name is declared as one; otherwise does nothing.
    pub fn bit_shift_left(&mut self, variable_name: &Vec<u8>, bits: u32)
        requires
            old(self).stack.wf(),
            bits < 32,
        ensures
            final(self).stack.wf(),
            final(self).lexer == old(self).lexer,
            final(self).output == old(self).output,
            ({
                let m = old(self).stack.smap();
                if m.contains_key(variable_name@) && m[variable_name@] is SInt {
                    final(self).stack.smap() == m.insert(
                        variable_name@,
                        SVal::SInt((sint_of(m[variable_name@]) as i32) << bits),
                    )
                } else {
                    final(self).stack.smap() == m
                }
            }),
    {
        match self.stack.get_from_int_map(variable_name) {
            Some(v) => {
                self.stack.push_int_map(variable_name, v << bits);
            },
            None => {},
        }
    }

    /// Shifts a 32-bit variable right by the given number of bits
    /// (arithmetic shift), when the name is declared as one; otherwise
    /// does nothing.
    pub fn bit_shift_right(&mut self, variable_name: &Vec<u8>, bits: u32)
        requires
            old(self).stack.wf(),
            bits < 32,
        ensures
            final(self).stack.wf(),
            final(self).lexer == old(self).lexer,
            final(self).output == old(self).output,
            ({
                let m = old(self).stack.smap();
                if m.contains_key(variable_name@) && m[variable_name@] is SInt {
                    final(self).stack.smap() == m.insert(
                        variable_name@,
                        SVal::SInt((sint_of(m[variable_name@]) as i32) >> bits),
                    )
                } else {
                    final(self).stack.smap() == m
                }
            }),
    {
        match self.stack.get_from_int_map(variable_name) {
            Some(v) => {
                self.stack.push_int_map(variable_name, v >> bits);
            },
            None => {},
        }
    }

    /// The declaration head `name -> type`: reads the name, the arrow
    /// and the type keyword, and seeds the store with the type's
    /// default. Fails on a malformed head or an already-declared name.
    pub fn parse_lhs(&mut self) -> (r: Result<Variable, InterpError>)
        requires
            old(self).wf(),
        ensures
            final(self).wf(),
            final(self).lexer.source@ == old(self).lexer.source@,
            final(self).lexer.size == old(self).lexer.size,
            final(self).output@ == old(self).output@,
            ({
                let s = old(self).lexer.source@;
                match spec_lhs(s, old(self).lexer.cur as int, old(self).stack.smap()) {
                    LhsRes::LOk { name, ty, end, m } => match r {
                        Ok(var) => var.name@ == name && var.declared_type == ty
                            && final(self).lexer.cur == end && final(self).stack.smap() == m,
                        Err(_) => false,
                    },
                    LhsRes::LFail { kind, row, col } => match r {
                        Ok(_) => false,
                        Err(e) => e.kind == kind && e.row as int == row && e.col as int == col
                            && final(self).stack.smap() == old(self).stack.smap(),
                    },
                }
            }),
    {
        let mut var = Variable::empty();
        let token: Token = match self.lexer.next() {
            Ok(t) => t,
            Err(e) => {
                return Err(e);
            },
        };
        if token.token_type != TokenT::VARNAME__ {
            return Err(
                make_error(ErrorKind::SyntaxError, token.loc.row, token.loc.col, token.value),
            );
        }
        let loc0 = token.loc;
        var.name = token.value;
        let token2: Token = match self.lexer.next() {
            Ok(t) => t,
            Err(e) => {
                return Err(e);
            },
        };
        if token2.token_type != TokenT::THIN_ARROW__ {
            return Err(
                make_error(ErrorKind::SyntaxError, token2.loc.row, token2.loc.col, token2.value),
            );
        }
        let token3: Token = match self.lexer.next() {
            Ok(t) => t,
            Err(e) => {
                return Err(e);
            },
        };
        let tyk: TokenT = token3.token_type;
        if tyk == TokenT::STRING_T || tyk == TokenT::INT_T || tyk == TokenT::INT_T_64 || tyk
            == TokenT::BOOL_T {
            if self.stack.defined(&var.name) {
                return Err(
                    make_error(ErrorKind::SyntaxError, loc0.row, loc0.col, var.name),
                );
            }
            var.declared_type = tyk;
            if tyk == TokenT::STRING_T {
                let empty_str: Vec<u8> = Vec::new();
                self.stack.push_str_map(&var.name, empty_str);
            } else if tyk == TokenT::INT_T {
                self.stack.push_int_map(&var.name, 0);
            } else if tyk == TokenT::INT_T_64 {
                self.stack.push_int_map_64(&var.name, 0);
            } else {
                self.stack.push_bool_map(&var.name, true);
            }
            return Ok(var);
        }
        Err(make_error(ErrorKind::SyntaxError, token3.loc.row, token3.loc.col, token3.value))
    }

    /// The initializer for a just-declared (or reassigned) variable: a
    /// matching literal for strings and booleans, an evaluated
    /// expression for the integer types.
    pub fn register_var(&mut self, variable: Variable) -> (r: Result<(), InterpError>)
        requires
            old(self).wf(),
        ensures
            final(self).lexer.wf(),
            final(self).stack.wf(),
            final(self).lexer.source@ == old(self).lexer.source@,
            final(self).lexer.size == old(self).lexer.size,
            final(self).output@ == old(self).output@,
            r is Ok ==> final(self).ap.iostack@.len() == 0,
            ({
                let s = old(self).lexer.source@;
                match spec_init(
                    s,
                    old(self).lexer.cur as int,
                    old(self).stack.smap(),
                    old(self).output@,
                    variable.name@,
                    variable.declared_type,
                ) {
                    StepRes::SOk { end, m, out } => match r {
                        Ok(_) => final(self).lexer.cur == end && final(self).stack.smap() == m,
                        Err(_) => false,
                    },
                    StepRes::SFail { kind, row, col } => match r {
                        Ok(_) => false,
                        Err(e) => e.kind == kind && e.row as int == row && e.col as int == col,
                    },
                }
            }),
    {
        if variable.declared_type == TokenT::STRING_T {
            let token: Token = match self.lexer.next() {
                Ok(t) => t,
                Err(e) => {
                    return Err(e);
                },
            };
            if token.token_type == TokenT::STRING__ {
                self.stack.push_str_map(&variable.name, token.value);
                return Ok(());
            }
            return Err(
                make_error(
                    ErrorKind::TypeMismatchError,
                    token.loc.row,
                    token.loc.col,
                    token.value,
                ),
            );
        }
        if variable.declared_type == TokenT::BOOL_T {
            let token: Token = match self.lexer.next() {
                Ok(t) => t,
                Err(e) => {
                    return Err(e);
                },
            };
            if token.token_type == TokenT::BOOL_TRUE__ || token.token_type
                == TokenT::BOOL_FALSE__ {
                let v: bool = token.token_type == TokenT::BOOL_TRUE__;
                self.stack.push_bool_map(&variable.name, v);
                return Ok(());
            }
            return Err(
                make_error(
                    ErrorKind::TypeMismatchError,
                    token.loc.row,
                    token.loc.col,
                    token.value,
                ),
            );
        }
        if variable.is_number() {
            let v: Rat = match self.ap.read_expression(&mut self.lexer, &self.stack) {
                Ok(v) => v,
                Err(e) => {
                    return Err(e);
                },
            };
            let tr: i64 = rat_trunc(v);
            if variable.declared_type == TokenT::INT_T {
                let clamped: i32 = sat_i32(tr);
                self.stack.push_int_map(&variable.name, clamped);
            } else {
                self.stack.push_int_map_64(&variable.name, tr);
            }
            return Ok(());
        }
        let row: usize = self.lexer.row;
        let col: usize = self.lexer.col;
        Err(make_error(ErrorKind::SyntaxError, row, col, variable.value))
    }

    /// A whole declaration statement: the head, then an optional `=`
    /// initializer. The token after the head is consumed either way.
    pub fn parse_def(&mut self) -> (r: Result<(), InterpError>)
        requires
            old(self).wf(),
        ensures
            final(self).lexer.wf(),
            final(self).stack.wf(),
            final(self).lexer.source@ == old(self).lexer.source@,
            final(self).lexer.size == old(self).lexer.size,
            final(self).output@ == old(self).output@,
            r is Ok ==> final(self).ap.iostack@.len() == 0,
            ({
                let s = old(self).lexer.source@;
                match spec_def(
                    s,
                    old(self).lexer.cur as int,
                    old(self).stack.smap(),
                    old(self).output@,
                ) {
                    StepRes::SOk { end, m, out } => match r {
                        Ok(_) => final(self).lexer.cur == end && final(self).stack.smap() == m,
                        Err(_) => false,
                    },
                    StepRes::SFail { kind, row, col } => match r {
                        Ok(_) => false,
                        Err(e) => e.kind == kind && e.row as int == row && e.col as int == col,
                    },
                }
            }),
    {
        let variable: Variable = match self.parse_lhs() {
            Ok(v) => v,
            Err(e) => {
                return Err(e);
            },
        };
        let token: Token = match self.lexer.next() {
            Ok(t) => t,
            Err(e) => {
                return Err(e);
            },
        };
        if token.token_type == TokenT::EQUAL__ {
            return self.register_var(variable);
        }
        Ok(())
    }

    /// A reassignment: the name must be declared, `=` must follow, and
    /// the right-hand side is parsed exactly as a declaration's
    /// initializer for the declared type.
    pub fn assign_variable(&mut self, token: &Token) -> (r: Result<(), InterpError>)
        requires
            old(self).wf(),
        ensures
            final(self).lexer.wf(),
            final(self).stack.wf(),
            final(self).lexer.source@ == old(self).lexer.source@,
            final(self).lexer.size == old(self).lexer.size,
            final(self).output@ == old(self).output@,
            r is Ok ==> final(self).ap.iostack@.len() == 0,
            ({
                let s = old(self).lexer.source@;
                match spec_assign(
                    s,
                    old(self).lexer.cur as int,
                    old(self).stack.smap(),
                    old(self).output@,
                    token.value@,
                    token.loc.row as int,
                    token.loc.col as int,
                ) {
                    StepRes::SOk { end, m, out } => match r {
                        Ok(_) => final(self).lexer.cur == end && final(self).stack.smap() == m,
                        Err(_) => false,
                    },
                    StepRes::SFail { kind, row, col } => match r {
                        Ok(_) => false,
                        Err(e) => e.kind == kind && e.row as int == row && e.col as int == col,
                    },
                }
            }),
    {
        if !self.stack.defined(&token.value) {
            return Err(
                make_error(
                    ErrorKind::UndefinedVariableError,
                    token.loc.row,
                    token.loc.col,
                    token.value.clone(),
                ),
            );
        }
        let t1: Token = match self.lexer.next() {
            Ok(t) => t,
            Err(e) => {
                return Err(e);
            },
        };
        if t1.token_type != TokenT::EQUAL__ {
            return Err(make_error(ErrorKind::SyntaxError, t1.loc.row, t1.loc.col, t1.value));
        }
        let ty: TokenT = if self.stack.get_from_str_map(&token.value).is_some() {
            TokenT::STRING_T
        } else if self.stack.get_from_bool_map(&token.value).is_some() {
            TokenT::BOOL_T
        } else if self.stack.get_from_int_map(&token.value).is_some() {
            TokenT::INT_T
        } else {
            TokenT::INT_T_64
        };
        proof {
            assert(ty == crate::parsespec::ty_of(self.stack.smap()[token.value@]));
        }
        let var = Variable::new(token.value.clone(), Vec::new(), ty, TokenT::NONE__);
        self.register_var(var)
    }

    /// The output statement: echoes a string literal verbatim, or a
    /// declared variable's rendering with a terminal newline; either
    /// form needs the closing parenthesis.
    pub fn parse_print(&mut self) -> (r: Result<(), InterpError>)
        requires
            old(self).wf(),
        ensures
            final(self).wf(),
            final(self).lexer.source@ == old(self).lexer.source@,
            final(self).lexer.size == old(self).lexer.size,
            final(self).stack.smap() == old(self).stack.smap(),
            r is Err ==> final(self).output@ == old(self).output@,
            ({
                let s = old(self).lexer.source@;
                match spec_print(
                    s,
                    old(self).lexer.cur as int,
                    old(self).stack.smap(),
                    old(self).output@,
                ) {
                    StepRes::SOk { end, m, out } => match r {
                        Ok(_) => final(self).lexer.cur == end && final(self).output@ == out,
                        Err(_) => false,
                    },
                    StepRes::SFail { kind, row, col } => match r {
                        Ok(_) => false,
                        Err(e) => e.kind == kind && e.row as int == row && e.col as int == col,
                    },
                }
            }),
    {
        let token: Token = match self.lexer.next() {
            Ok(t) => t,
            Err(e) => {
                return Err(e);
            },
        };
        if token.token_type == TokenT::STRING__ {
            let t2: Token = match self.lexer.next() {
                Ok(t) => t,
                Err(e) => {
                    return Err(e);
                },
            };
            if t2.token_type == TokenT::CPAR__ {
                append_bytes(&mut self.output, token.value.as_slice());
                return Ok(());
            }
            return Err(
                make_error(ErrorKind::SyntaxError, token.loc.row, token.loc.col, token.value),
            );
        }
        if token.token_type == TokenT::VARNAME__ {
            let rendered: Vec<u8> = match self.stack.print_variable(&token.value) {
                Some(v) => v,
                None => {
                    return Err(
                        make_error(
                            ErrorKind::UndefinedVariableError,
                            token.loc.row,
                            token.loc.col,
                            token.value,
                        ),
                    );
                },
            };
            let t2: Token = match self.lexer.next() {
                Ok(t) => t,
                Err(e) => {
                    return Err(e);
                },
            };
            if t2.token_type == TokenT::CPAR__ {
                let ghost out0 = self.output@;
                append_bytes(&mut self.output, rendered.as_slice());
                self.output.push(NL);
                proof {
                    assert(self.output@ =~= out0 + rendered@ + seq![NL]);
                }
                return Ok(());
            }
            return Err(make_error(ErrorKind::SyntaxError, t2.loc.row, t2.loc.col, t2.value));
        }
        Err(make_error(ErrorKind::SyntaxError, token.loc.row, token.loc.col, token.value))
    }

    /// One statement: routes on the first token of the line. Blank
    /// lines, comments and the buffer end are no-ops; anything that is
    /// not a declaration, a reassignment or an output call fails.
    pub fn parse_lexer(&mut self) -> (r: Result<(), InterpError>)
        requires
            old(self).wf(),
        ensures
            final(self).lexer.wf(),
            final(self).stack.wf(),
            final(self).lexer.source@ == old(self).lexer.source@,
            final(self).lexer.size == old(self).lexer.size,
            r is Ok ==> final(self).ap.iostack@.len() == 0,
            r is Err ==> final(self).output@ == old(self).output@,
            ({
                let s = old(self).lexer.source@;
                match spec_stmt(
                    s,
                    old(self).lexer.cur as int,
                    old(self).stack.smap(),
                    old(self).output@,
                ) {
                    StepRes::SOk { end, m, out } => match r {
                        Ok(_) => final(self).lexer.cur == end && final(self).stack.smap() == m
                            && final(self).output@ == out,
                        Err(_) => false,
                    },
                    StepRes::SFail { kind, row, col } => match r {
                        Ok(_) => false,
                        Err(e) => e.kind == kind && e.row as int == row && e.col as int == col,
                    },
                }
            }),
            r is Ok && old(self).lexer.cur < old(self).lexer.size ==> final(self).lexer.cur > old(
                self,
            ).lexer.cur,
    {
        proof {
            lemma_stmt_advances(
                self.lexer.source@,
                self.lexer.cur as int,
                self.stack.smap(),
                self.output@,
            );
        }
        let token: Token = match self.lexer.next() {
            Ok(t) => t,
            Err(e) => {
                return Err(e);
            },
        };
        let k: TokenT = token.token_type;
        if k == TokenT::NL__ || k == TokenT::COMMENT__ {
            return Ok(());
        }
        if k == TokenT::NONE__ {
            if token.size == 0 {
                return Ok(());
            }
            return Err(
                make_error(ErrorKind::SyntaxError, token.loc.row, token.loc.col, token.value),
            );
        }
        if k == TokenT::FUNC_CALL__ {
            if is_write(&token.value) {
                return self.parse_print();
            }
            return Err(
                make_error(
                    ErrorKind::UndefinedVariableError,
                    token.loc.row,
                    token.loc.col,
                    token.value,
                ),
            );
        }
        if k == TokenT::KEY_WORD_DEFINE__ {
            return self.parse_def();
        }
        if k == TokenT::VARNAME__ {
            return self.assign_variable(&token);
        }
        Err(make_error(ErrorKind::SyntaxError, token.loc.row, token.loc.col, token.value))
    }

    /// The interpreter session: statements run in order until the
    /// buffer is exhausted or one fails, which stops everything after
    /// it (the output already produced stays).
    pub fn run(&mut self) -> (r: Result<(), InterpError>)
        requires
            old(self).wf(),
        ensures
            final(self).lexer.wf(),
            final(self).stack.wf(),
            final(self).lexer.source@ == old(self).lexer.source@,
            final(self).lexer.size == old(self).lexer.size,
            ({
                let sr = spec_run(
                    old(self).lexer.source@,
                    old(self).lexer.cur as int,
                    old(self).stack.smap(),
                    old(self).output@,
                );
                match sr.err {
                    None => r is Ok && final(self).stack.smap() == sr.m && final(self).output@
                        == sr.out && final(self).lexer.cur == sr.end && final(self).wf(),
                    Some((kind, row, col)) => match r {
                        Ok(_) => false,
                        Err(e) => e.kind == kind && e.row as int == row && e.col as int == col
                            && final(self).output@ == sr.out,
                    },
                }
            }),
    {
        let ghost s = self.lexer.source@;
        let ghost target = spec_run(s, self.lexer.cur as int, self.stack.smap(), self.output@);
        while self.lexer.is_not_empty()
            invariant
                self.wf(),
                self.lexer.source@ == s,
                s == old(self).lexer.source@,
                self.lexer.size == old(self).lexer.size,
                target == spec_run(
                    old(self).lexer.source@,
                    old(self).lexer.cur as int,
                    old(self).stack.smap(),
                    old(self).output@,
                ),
                target == spec_run(s, self.lexer.cur as int, self.stack.smap(), self.output@),
            decreases self.lexer.size - self.lexer.cur,
        {
            proof {
                lemma_stmt_advances(s, self.lexer.cur as int, self.stack.smap(), self.output@);
            }
            match self.parse_lexer() {
                Ok(_) => {},
                Err(e) => {
                    return Err(e);
                },
            }
        }
        Ok(())
    }
}

} // verus!
