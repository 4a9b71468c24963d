use vstd::prelude::*;

verus! {

// Byte constants for the characters the tokenizer dispatches on.
pub const DQUOTE: u8 = 34;
pub const SQUOTE: u8 = 39;
pub const SPACE: u8 = 32;
pub const NL: u8 = 10;
pub const TAB: u8 = 9;
pub const RE: u8 = 13;
pub const FF: u8 = 12;
pub const NULLC: u8 = 0;
pub const OPAR: u8 = 40;
pub const CPAR: u8 = 41;
pub const OCURLY: u8 = 123;
pub const CCURLY: u8 = 125;
pub const PLUS: u8 = 43;
pub const MULT: u8 = 42;
pub const MINUS: u8 = 45;
pub const DIV: u8 = 47;
pub const POW: u8 = 94;
pub const COMA: u8 = 44;
pub const SEMICOLON: u8 = 59;
pub const EQUAL: u8 = 61;
pub const GT: u8 = 62;
pub const LT: u8 = 60;
pub const QM: u8 = 33;
pub const PIPE: u8 = 124;
pub const ESCAPE: u8 = 92;

/// The closed set of token kinds the tokenizer can produce.
#[derive(Clone, Copy, PartialEq, Eq, Structural, Debug)]
pub enum TokenT {
    // Single- and two-character punctuation and operators.
    DIV__,
    COMMENT__,
    POW__,
    DQUOTE__,
    SQUOTE__,
    OPAR__,
    CPAR__,
    OCURLY__,
    CCURLY__,
    PLUS__,
    MINUS__,
    MULT__,
    COMA__,
    SEMICOLON__,
    EQUAL__,
    GT__,
    LT__,
    QM__,
    THIN_ARROW__,
    FAT_ARROW__,
    PIPE__,
    // End of a statement line.
    NL__,
    // Unrecognized input, and the empty end-of-buffer token.
    NONE__,
    NUMBER__,
    STRING__,
    VARNAME__,
    // Comparison operators.
    COMP_EQ__,
    COMP_NOT_EQ__,
    COMP_LT_EQ__,
    COMP_GT_EQ__,
    // Boolean literals.
    BOOL_TRUE__,
    BOOL_FALSE__,
    // Type keywords.
    INT_T,
    INT_T_64,
    STRING_T,
    BOOL_T,
    // An identifier immediately followed by `(`.
    FUNC_CALL__,
    // Control keywords.
    KEY_WORD_DEFINE__,
    ELSE__,
    IF__,
}

/// The kind a single special character lexes to, if it is one of the
/// characters the tokenizer resolves through its lookup table.
pub open spec fn special_kind(c: u8) -> Option<TokenT> {
    if c == DQUOTE {
        Some(TokenT::DQUOTE__)
    } else if c == SQUOTE {
        Some(TokenT::SQUOTE__)
    } else if c == OPAR {
        Some(TokenT::OPAR__)
    } else if c == CPAR {
        Some(TokenT::CPAR__)
    } else if c == OCURLY {
        Some(TokenT::OCURLY__)
    } else if c == CCURLY {
        Some(TokenT::CCURLY__)
    } else if c == PLUS {
        Some(TokenT::PLUS__)
    } else if c == MINUS {
        Some(TokenT::MINUS__)
    } else if c == MULT {
        Some(TokenT::MULT__)
    } else if c == DIV {
        Some(TokenT::DIV__)
    } else if c == POW {
        Some(TokenT::POW__)
    } else if c == COMA {
        Some(TokenT::COMA__)
    } else if c == SEMICOLON {
        Some(TokenT::SEMICOLON__)
    } else if c == EQUAL {
        Some(TokenT::EQUAL__)
    } else if c == GT {
        Some(TokenT::GT__)
    } else if c == LT {
        Some(TokenT::LT__)
    } else if c == QM {
        Some(TokenT::QM__)
    } else if c == PIPE {
        Some(TokenT::PIPE__)
    } else {
        None
    }
}

/// The single-character token table, realized as a total lookup function.
pub struct TokenTable {}

impl TokenTable {
    /// Looks a character up in the table.
    pub fn get(&self, c: u8) -> (r: Option<TokenT>)
        ensures
            r == special_kind(c),
    {
        if c == DQUOTE {
            Some(TokenT::DQUOTE__)
        } else if c == SQUOTE {
            Some(TokenT::SQUOTE__)
        } else if c == OPAR {
            Some(TokenT::OPAR__)
        } else if c == CPAR {
            Some(TokenT::CPAR__)
        } else if c == OCURLY {
            Some(TokenT::OCURLY__)
        } else if c == CCURLY {
            Some(TokenT::CCURLY__)
        } else if c == PLUS {
            Some(TokenT::PLUS__)
        } else if c == MINUS {
            Some(TokenT::MINUS__)
        } else if c == MULT {
            Some(TokenT::MULT__)
        } else if c == DIV {
            Some(TokenT::DIV__)
        } else if c == POW {
            Some(TokenT::POW__)
        } else if c == COMA {
            Some(TokenT::COMA__)
        } else if c == SEMICOLON {
            Some(TokenT::SEMICOLON__)
        } else if c == EQUAL {
            Some(TokenT::EQUAL__)
        } else if c == GT {
            Some(TokenT::GT__)
        } else if c == LT {
            Some(TokenT::LT__)
        } else if c == QM {
            Some(TokenT::QM__)
        } else if c == PIPE {
            Some(TokenT::PIPE__)
        } else {
            None
        }
    }

    /// Whether the table holds the character.
    pub fn contains(&self, c: u8) -> (r: bool)
        ensures
            r == special_kind(c) is Some,
    {
        self.get(c).is_some()
    }
}

/// Builds the single-character token table.
pub fn make_token_table() -> (t: TokenTable) {
    TokenTable {}
}

/// The rank of an arithmetic operator: `^` binds tightest, then `*` and
/// `/`, then `+` and `-`. `None` for every other token kind.
pub open spec fn prec_of(t: TokenT) -> Option<u32> {
    match t {
        TokenT::POW__ => Some(4u32),
        TokenT::MULT__ => Some(3u32),
        TokenT::DIV__ => Some(3u32),
        TokenT::PLUS__ => Some(2u32),
        TokenT::MINUS__ => Some(2u32),
        _ => None,
    }
}

/// Whether the token kind is one of the five arithmetic operators.
pub open spec fn is_arith_op(t: TokenT) -> bool {
    prec_of(t) is Some
}

/// The operator-precedence table, realized as a total lookup function.
pub struct PrecTable {}

impl PrecTable {
    /// The precedence rank of an operator token kind.
    pub fn get(&self, t: TokenT) -> (r: Option<u32>)
        ensures
            r == prec_of(t),
    {
        match t {
            TokenT::POW__ => Some(4u32),
            TokenT::MULT__ => Some(3u32),
            TokenT::DIV__ => Some(3u32),
            TokenT::PLUS__ => Some(2u32),
            TokenT::MINUS__ => Some(2u32),
            _ => None,
        }
    }

    /// Whether the token kind is in the table.
    pub fn contains(&self, t: TokenT) -> (r: bool)
        ensures
            r == is_arith_op(t),
    {
        self.get(t).is_some()
    }
}

/// Builds the operator-precedence table.
pub fn make_prec_table() -> (t: PrecTable) {
    PrecTable {}
}

} // verus!
