use kasper::enums::{make_prec_table, make_token_table, TokenT};
use kasper::expr::{is_parent, ArithmaticParser};
use kasper::lexer::KasperLexer;
use kasper::numfmt::{i64_to_dec, parse_digits_i64, u64_to_dec};
use kasper::parser::{KasperParser, Variable};
use kasper::rat::{rat_add, rat_div, rat_mul, rat_pow, rat_sub, rat_trunc, sat_i32, Rat};
use kasper::stack::Stack;
use kasper::token::{Location, Token};

fn lex_all(src: &str) -> Vec<Token> {
    let mut lex = KasperLexer::new(src.as_bytes().to_vec());
    let mut toks: Vec<Token> = Vec::new();
    while lex.is_not_empty() {
        let t = lex.next().expect("lexing failed");
        if t.size > 0 || t.token_type != TokenT::NONE__ {
            toks.push(t);
        }
    }
    toks
}

#[test]
fn lexer_classifies_a_declaration() {
    let toks = lex_all("define x -> int = 5\n");
    let kinds: Vec<TokenT> = toks.iter().map(|t| t.token_type).collect();
    assert_eq!(
        kinds,
        vec![
            TokenT::KEY_WORD_DEFINE__,
            TokenT::VARNAME__,
            TokenT::THIN_ARROW__,
            TokenT::INT_T,
            TokenT::EQUAL__,
            TokenT::NUMBER__,
            TokenT::NL__,
        ]
    );
    assert_eq!(toks[1].value, b"x".to_vec());
    assert_eq!(toks[5].value, b"5".to_vec());
}

#[test]
fn lexer_tracks_locations() {
    let toks = lex_all("  x\ny\n");
    assert_eq!((toks[0].loc.row, toks[0].loc.col), (1, 3));
    // The newline token, then the name on the second row.
    assert_eq!(toks[1].token_type, TokenT::NL__);
    assert_eq!((toks[2].loc.row, toks[2].loc.col), (2, 1));
}

#[test]
fn lexer_reads_comments_to_end_of_line() {
    let toks = lex_all("// hi there\nx");
    assert_eq!(toks[0].token_type, TokenT::COMMENT__);
    assert_eq!(toks[0].value, b"// hi there".to_vec());
    assert_eq!(toks[1].token_type, TokenT::NL__);
    assert_eq!(toks[2].token_type, TokenT::VARNAME__);
}

#[test]
fn lexer_slash_alone_is_divide() {
    let toks = lex_all("1 / 2");
    assert_eq!(toks[1].token_type, TokenT::DIV__);
}

#[test]
fn lexer_decodes_string_escapes() {
    let toks = lex_all("\"a\\tb\\\\c\\\"d\"");
    assert_eq!(toks[0].token_type, TokenT::STRING__);
    assert_eq!(toks[0].value, b"a\tb\\c\"d".to_vec());
}

#[test]
fn lexer_two_character_operators() {
    let toks = lex_all("-> =>");
    assert_eq!(toks[0].token_type, TokenT::THIN_ARROW__);
    assert_eq!(toks[1].token_type, TokenT::FAT_ARROW__);
}

#[test]
fn lexer_function_call_consumes_paren() {
    let toks = lex_all("foo(x)");
    assert_eq!(toks[0].token_type, TokenT::FUNC_CALL__);
    assert_eq!(toks[0].value, b"foo".to_vec());
    assert_eq!(toks[1].token_type, TokenT::VARNAME__);
    assert_eq!(toks[2].token_type, TokenT::CPAR__);
}

#[test]
fn lexer_keywords() {
    let toks = lex_all("define int i64 string bool True False if else");
    let kinds: Vec<TokenT> = toks.iter().map(|t| t.token_type).collect();
    assert_eq!(
        kinds,
        vec![
            TokenT::KEY_WORD_DEFINE__,
            TokenT::INT_T,
            TokenT::INT_T_64,
            TokenT::STRING_T,
            TokenT::BOOL_T,
            TokenT::BOOL_TRUE__,
            TokenT::BOOL_FALSE__,
            TokenT::IF__,
            TokenT::ELSE__,
        ]
    );
}

#[test]
fn token_table_resolves_punctuation() {
    let table = make_token_table();
    assert_eq!(table.get(b'('), Some(TokenT::OPAR__));
    assert_eq!(table.get(b'^'), Some(TokenT::POW__));
    assert_eq!(table.get(b'a'), None);
}

#[test]
fn prec_table_ranks_operators() {
    let table = make_prec_table();
    assert_eq!(table.get(TokenT::POW__), Some(4));
    assert_eq!(table.get(TokenT::MULT__), Some(3));
    assert_eq!(table.get(TokenT::DIV__), Some(3));
    assert_eq!(table.get(TokenT::PLUS__), Some(2));
    assert_eq!(table.get(TokenT::MINUS__), Some(2));
    assert_eq!(table.get(TokenT::NUMBER__), None);
}

#[test]
fn parser_precedence_queries() {
    let ap = ArithmaticParser::new();
    assert!(ap.is_greater(TokenT::MULT__, TokenT::PLUS__));
    assert!(!ap.is_greater(TokenT::PLUS__, TokenT::MULT__));
    assert!(ap.is_less_eq(TokenT::PLUS__, TokenT::PLUS__));
    assert!(ap.is_in_prec(TokenT::POW__));
    assert!(!ap.is_in_prec(TokenT::OPAR__));
    assert!(is_parent(TokenT::OPAR__));
    assert!(!is_parent(TokenT::PLUS__));
}

#[test]
fn rational_arithmetic_is_exact() {
    let third = rat_div(Rat::from_int(1), Rat::from_int(3)).expect("1/3");
    assert_eq!((third.num, third.den), (1, 3));
    let one = rat_mul(third, Rat::from_int(3)).expect("(1/3)*3");
    assert_eq!(rat_trunc(one), 1);
    let sum = rat_add(third, third).expect("1/3+1/3");
    assert_eq!((sum.num, sum.den), (6, 9));
    let diff = rat_sub(Rat::from_int(2), Rat::from_int(5)).expect("2-5");
    assert_eq!(rat_trunc(diff), -3);
}

#[test]
fn rational_division_by_zero_is_refused() {
    assert!(rat_div(Rat::from_int(1), Rat::from_int(0)).is_none());
}

#[test]
fn rational_pow_cases() {
    let eight = rat_pow(Rat::from_int(2), Rat::from_int(3)).expect("2^3");
    assert_eq!(rat_trunc(eight), 8);
    let quarter = rat_pow(Rat::from_int(2), Rat::from_int(-2)).expect("2^-2");
    assert_eq!((quarter.num, quarter.den), (1, 4));
    assert_eq!(rat_trunc(quarter), 0);
    let one = rat_pow(Rat::from_int(0), Rat::from_int(0)).expect("0^0");
    assert_eq!(rat_trunc(one), 1);
    assert!(rat_pow(Rat::from_int(0), Rat::from_int(-1)).is_none());
    let half = Rat { num: 1, den: 2 };
    assert!(rat_pow(Rat::from_int(2), half).is_none());
}

#[test]
fn truncation_goes_toward_zero() {
    assert_eq!(rat_trunc(Rat { num: 7, den: 2 }), 3);
    assert_eq!(rat_trunc(Rat { num: -7, den: 2 }), -3);
}

#[test]
fn saturation_clamps_to_32_bits() {
    assert_eq!(sat_i32(3_000_000_000), i32::MAX);
    assert_eq!(sat_i32(-3_000_000_000), i32::MIN);
    assert_eq!(sat_i32(-5), -5);
}

#[test]
fn decimal_rendering() {
    assert_eq!(u64_to_dec(0), b"0".to_vec());
    assert_eq!(u64_to_dec(907), b"907".to_vec());
    assert_eq!(i64_to_dec(-120), b"-120".to_vec());
    assert_eq!(i64_to_dec(i64::MIN), b"-9223372036854775808".to_vec());
}

#[test]
fn digit_parsing() {
    assert_eq!(parse_digits_i64(&b"0".to_vec()), Some(0));
    assert_eq!(parse_digits_i64(&b"9007".to_vec()), Some(9007));
    assert_eq!(parse_digits_i64(&b"".to_vec()), None);
    assert_eq!(parse_digits_i64(&b"12a".to_vec()), None);
    assert_eq!(parse_digits_i64(&b"99999999999999999999".to_vec()), None);
}

#[test]
fn store_partitions_by_type() {
    let mut st = Stack::new();
    st.push_int_map(&b"n".to_vec(), 7);
    st.push_str_map(&b"s".to_vec(), b"hi".to_vec());
    st.push_bool_map(&b"b".to_vec(), false);
    st.push_int_map_64(&b"w".to_vec(), 1 << 40);
    assert!(st.defined(&b"n".to_vec()));
    assert!(!st.defined(&b"missing".to_vec()));
    assert_eq!(st.get_from_int_map(&b"n".to_vec()), Some(7));
    assert_eq!(st.get_from_int_map(&b"s".to_vec()), None);
    assert_eq!(st.get_from_str_map(&b"s".to_vec()), Some(b"hi".to_vec()));
    assert_eq!(st.get_from_bool_map(&b"b".to_vec()), Some(false));
    assert_eq!(st.get_from_int_map_64(&b"w".to_vec()), Some(1 << 40));
}

#[test]
fn store_numeric_widening() {
    let mut st = Stack::new();
    st.push_int_map(&b"n".to_vec(), -4);
    st.push_int_map_64(&b"w".to_vec(), 99);
    st.push_str_map(&b"s".to_vec(), b"x".to_vec());
    assert_eq!(st.get_int(&b"n".to_vec()), Some(-4));
    assert_eq!(st.get_int(&b"w".to_vec()), Some(99));
    assert_eq!(st.get_int(&b"s".to_vec()), None);
}

#[test]
fn store_rendering_per_type() {
    let mut st = Stack::new();
    st.push_int_map(&b"n".to_vec(), -12);
    st.push_str_map(&b"s".to_vec(), b"text".to_vec());
    st.push_bool_map(&b"t".to_vec(), true);
    st.push_bool_map(&b"f".to_vec(), false);
    assert_eq!(st.print_variable(&b"n".to_vec()), Some(b"-12".to_vec()));
    assert_eq!(st.print_variable(&b"s".to_vec()), Some(b"text".to_vec()));
    assert_eq!(st.print_variable(&b"t".to_vec()), Some(b"True".to_vec()));
    assert_eq!(st.print_variable(&b"f".to_vec()), Some(b"False".to_vec()));
    assert_eq!(st.print_variable(&b"missing".to_vec()), None);
}

#[test]
fn store_reassignment_replaces_value() {
    let mut st = Stack::new();
    st.push_int_map(&b"n".to_vec(), 1);
    st.push_int_map(&b"n".to_vec(), 2);
    assert_eq!(st.get_from_int_map(&b"n".to_vec()), Some(2));
}

#[test]
fn variable_records() {
    let v = Variable::new(b"x".to_vec(), Vec::new(), TokenT::INT_T, TokenT::NONE__);
    assert!(v.is_number());
    let w = Variable::empty();
    assert!(!w.is_number());
    assert_eq!(w.declared_type, TokenT::NONE__);
}

#[test]
fn location_updates() {
    let mut loc = Location::empty();
    assert_eq!((loc.row, loc.col), (0, 0));
    loc.change_loc(3, 9);
    assert_eq!((loc.row, loc.col), (3, 9));
}

#[test]
fn token_write_appends() {
    let mut t = Token::empty();
    t.write(b'a');
    t.write(b'b');
    assert_eq!(t.value, b"ab".to_vec());
    assert_eq!(t.size, 2);
}

#[test]
fn parser_variable_queries() {
    let lex = KasperLexer::new(Vec::new());
    let mut p = KasperParser::new(lex);
    p.stack.push_int_map(&b"n".to_vec(), 5);
    p.stack.push_str_map(&b"s".to_vec(), b"v".to_vec());
    p.stack.push_int_map_64(&b"w".to_vec(), 12);
    assert!(p.defined(&b"n".to_vec()));
    assert_eq!(p.get_str_var(&b"s".to_vec()), Some(b"v".to_vec()));
    assert_eq!(p.get_int_var(&b"n".to_vec(), TokenT::INT_T), Some(5));
    assert_eq!(p.get_int_var(&b"n".to_vec(), TokenT::INT_T_64), None);
    assert_eq!(p.get_int_var(&b"w".to_vec(), TokenT::INT_T_64), Some(12));
}

#[test]
fn parser_arithmetic_helpers() {
    let lex = KasperLexer::new(Vec::new());
    let mut p = KasperParser::new(lex);
    p.stack.push_int_map(&b"n".to_vec(), 10);
    p.add(&b"n".to_vec(), 5);
    assert_eq!(p.stack.get_from_int_map(&b"n".to_vec()), Some(15));
    p.sub(&b"n".to_vec(), 22);
    assert_eq!(p.stack.get_from_int_map(&b"n".to_vec()), Some(-7));
    p.multiply(&b"n".to_vec(), 3);
    assert_eq!(p.stack.get_from_int_map(&b"n".to_vec()), Some(-21));
    p.divide(&b"n".to_vec(), 2);
    assert_eq!(p.stack.get_from_int_map(&b"n".to_vec()), Some(-10));
    p.divide(&b"n".to_vec(), -5);
    assert_eq!(p.stack.get_from_int_map(&b"n".to_vec()), Some(2));
    p.bit_shift_left(&b"n".to_vec(), 4);
    assert_eq!(p.stack.get_from_int_map(&b"n".to_vec()), Some(32));
    p.bit_shift_right(&b"n".to_vec(), 2);
    assert_eq!(p.stack.get_from_int_map(&b"n".to_vec()), Some(8));
    // A name of another type is left alone.
    p.stack.push_str_map(&b"s".to_vec(), b"x".to_vec());
    p.add(&b"s".to_vec(), 1);
    assert_eq!(p.stack.get_from_str_map(&b"s".to_vec()), Some(b"x".to_vec()));
}

#[test]
fn error_message_renders_location_and_text() {
    let e = kasper::errors::make_error(
        kasper::errors::ErrorKind::SyntaxError,
        3,
        14,
        b"oops".to_vec(),
    );
    assert_eq!(e.message(), b"3:14 oops".to_vec());
}

#[test]
fn equal_precedence_left_association_div_mul() {
    let mut lex = KasperLexer::new(b"define x -> int = 8 / 2 * 2\nwrite(x)\n".to_vec());
    let _ = &mut lex;
    let lex2 = KasperLexer::new(b"define x -> int = 8 / 2 * 2\nwrite(x)\n".to_vec());
    let mut p = KasperParser::new(lex2);
    assert!(p.run().is_ok());
    assert_eq!(p.output, b"8\n".to_vec());
}
