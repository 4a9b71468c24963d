use kasper::errors::{ErrorKind, InterpError};
use kasper::lexer::KasperLexer;
use kasper::parser::KasperParser;

fn run_program(src: &str) -> (Vec<u8>, Option<InterpError>) {
    let lex = KasperLexer::new(src.as_bytes().to_vec());
    let mut parser = KasperParser::new(lex);
    match parser.run() {
        Ok(()) => (parser.output, None),
        Err(e) => (parser.output, Some(e)),
    }
}

#[test]
fn write_expr_precedence() {
    let (out, err) = run_program("define x -> int = 1 + 2 * 3\nwrite(x)\n");
    assert!(err.is_none(), "unexpected error: {:?}", err);
    assert_eq!(out, b"7\n".to_vec());
}

#[test]
fn write_expr_parens() {
    let (out, err) = run_program("define y -> int = (1 + 2) * 3\nwrite(y)\n");
    assert!(err.is_none(), "unexpected error: {:?}", err);
    assert_eq!(out, b"9\n".to_vec());
}

#[test]
fn division_by_zero_fails() {
    let (out, err) = run_program("define z -> int = 5 / 0\n");
    assert_eq!(err.expect("expected an error").kind, ErrorKind::ArithmeticError);
    assert!(out.is_empty());
}

#[test]
fn string_escape_newline() {
    let (out, err) = run_program("define s -> string = \"a\\nb\"\nwrite(s)\n");
    assert!(err.is_none(), "unexpected error: {:?}", err);
    assert_eq!(out, b"a\nb\n".to_vec());
}

#[test]
fn undefined_write_fails() {
    let (out, err) = run_program("write(undefined_name)\n");
    assert_eq!(
        err.expect("expected an error").kind,
        ErrorKind::UndefinedVariableError
    );
    assert!(out.is_empty());
}

#[test]
fn bool_reassign_int_literal_fails() {
    let (out, err) = run_program("define b -> bool = True\nb = 5\n");
    assert_eq!(err.expect("expected an error").kind, ErrorKind::TypeMismatchError);
    assert!(out.is_empty());
}

#[test]
fn default_int_is_zero() {
    let (out, err) = run_program("define v -> int\nwrite(v)\n");
    assert!(err.is_none(), "unexpected error: {:?}", err);
    assert_eq!(out, b"0\n".to_vec());
}

#[test]
fn default_i64_is_zero() {
    let (out, err) = run_program("define v -> i64\nwrite(v)\n");
    assert!(err.is_none(), "unexpected error: {:?}", err);
    assert_eq!(out, b"0\n".to_vec());
}

#[test]
fn default_string_is_empty() {
    let (out, err) = run_program("define v -> string\nwrite(v)\n");
    assert!(err.is_none(), "unexpected error: {:?}", err);
    assert_eq!(out, b"\n".to_vec());
}

#[test]
fn default_bool_is_true() {
    let (out, err) = run_program("define v -> bool\nwrite(v)\n");
    assert!(err.is_none(), "unexpected error: {:?}", err);
    assert_eq!(out, b"True\n".to_vec());
}

#[test]
fn unmatched_paren_fails() {
    let (out, err) = run_program("define z -> int = (1 + 2");
    assert_eq!(err.expect("expected an error").kind, ErrorKind::UnmatchedParenError);
    assert!(out.is_empty());
}

#[test]
fn unmatched_close_paren_fails() {
    let (_, err) = run_program("define z -> int = 1 + 2)\n");
    assert_eq!(err.expect("expected an error").kind, ErrorKind::UnmatchedParenError);
}

#[test]
fn subtraction_left_associates() {
    let (out, err) = run_program("define x -> int = 10 - 5 - 2\nwrite(x)\n");
    assert!(err.is_none(), "unexpected error: {:?}", err);
    assert_eq!(out, b"3\n".to_vec());
}

#[test]
fn division_left_associates_through_fractions() {
    let (out, err) = run_program("define x -> int = 10 / 4 * 2\nwrite(x)\n");
    assert!(err.is_none(), "unexpected error: {:?}", err);
    assert_eq!(out, b"5\n".to_vec());
}

#[test]
fn pow_right_associates() {
    let (out, err) = run_program("define x -> int = 2 ^ 3 ^ 2\nwrite(x)\n");
    assert!(err.is_none(), "unexpected error: {:?}", err);
    assert_eq!(out, b"512\n".to_vec());
}

#[test]
fn write_string_literal_verbatim() {
    let (out, err) = run_program("write(\"hi\")");
    assert!(err.is_none(), "unexpected error: {:?}", err);
    assert_eq!(out, b"hi".to_vec());
}

#[test]
fn comments_and_blank_lines_are_skipped() {
    let (out, err) = run_program("// a comment\n\ndefine x -> int = 2\nwrite(x)\n");
    assert!(err.is_none(), "unexpected error: {:?}", err);
    assert_eq!(out, b"2\n".to_vec());
}

#[test]
fn reassignment_evaluates_expression() {
    let (out, err) = run_program("define x -> int = 1\nx = x + 4\nwrite(x)\n");
    assert!(err.is_none(), "unexpected error: {:?}", err);
    assert_eq!(out, b"5\n".to_vec());
}

#[test]
fn i64_holds_large_values() {
    let (out, err) = run_program("define n -> i64 = 4000000000\nwrite(n)\n");
    assert!(err.is_none(), "unexpected error: {:?}", err);
    assert_eq!(out, b"4000000000\n".to_vec());
}

#[test]
fn int_saturates_at_32_bits() {
    let (out, err) = run_program("define n -> int = 3000000000\nwrite(n)\n");
    assert!(err.is_none(), "unexpected error: {:?}", err);
    assert_eq!(out, b"2147483647\n".to_vec());
}

#[test]
fn negative_results_render_with_sign() {
    let (out, err) = run_program("define x -> int = 2 - 5\nwrite(x)\n");
    assert!(err.is_none(), "unexpected error: {:?}", err);
    assert_eq!(out, b"-3\n".to_vec());
}

#[test]
fn string_reassignment() {
    let (out, err) = run_program(
        "define s -> string = \"old\"\ns = \"new\"\nwrite(s)\n",
    );
    assert!(err.is_none(), "unexpected error: {:?}", err);
    assert_eq!(out, b"new\n".to_vec());
}

#[test]
fn bool_reassignment() {
    let (out, err) = run_program("define b -> bool = True\nb = False\nwrite(b)\n");
    assert!(err.is_none(), "unexpected error: {:?}", err);
    assert_eq!(out, b"False\n".to_vec());
}

#[test]
fn unterminated_string_fails() {
    let (_, err) = run_program("define s -> string = \"oops\n");
    assert_eq!(err.expect("expected an error").kind, ErrorKind::LexError);
}

#[test]
fn bad_escape_fails() {
    let (_, err) = run_program("define s -> string = \"a\\qb\"\n");
    assert_eq!(err.expect("expected an error").kind, ErrorKind::LexError);
}

#[test]
fn missing_arrow_fails() {
    let (_, err) = run_program("define x int = 5\n");
    assert_eq!(err.expect("expected an error").kind, ErrorKind::SyntaxError);
}

#[test]
fn unsupported_type_fails() {
    let (_, err) = run_program("define x -> float = 5\n");
    assert_eq!(err.expect("expected an error").kind, ErrorKind::SyntaxError);
}

#[test]
fn unknown_function_fails() {
    let (_, err) = run_program("foo(1)\n");
    assert_eq!(
        err.expect("expected an error").kind,
        ErrorKind::UndefinedVariableError
    );
}

#[test]
fn unrecognized_token_fails() {
    let (_, err) = run_program("#\n");
    assert_eq!(err.expect("expected an error").kind, ErrorKind::SyntaxError);
}

#[test]
fn redefinition_fails() {
    let (_, err) = run_program("define x -> int = 1\ndefine x -> string = \"s\"\n");
    assert_eq!(err.expect("expected an error").kind, ErrorKind::SyntaxError);
}

#[test]
fn assignment_to_undeclared_fails() {
    let (_, err) = run_program("x = 5\n");
    assert_eq!(
        err.expect("expected an error").kind,
        ErrorKind::UndefinedVariableError
    );
}

#[test]
fn write_missing_close_paren_fails() {
    let (_, err) = run_program("write(\"hi\"\n");
    assert_eq!(err.expect("expected an error").kind, ErrorKind::SyntaxError);
}

#[test]
fn write_number_argument_fails() {
    let (_, err) = run_program("write(5)\n");
    assert_eq!(err.expect("expected an error").kind, ErrorKind::SyntaxError);
}

#[test]
fn oversized_number_literal_fails() {
    let (_, err) = run_program("define n -> i64 = 99999999999999999999\n");
    assert_eq!(err.expect("expected an error").kind, ErrorKind::ArithmeticError);
}

#[test]
fn fractional_exponent_fails() {
    let (_, err) = run_program("define x -> int = 2 ^ (1 / 2)\n");
    assert_eq!(err.expect("expected an error").kind, ErrorKind::ArithmeticError);
}

#[test]
fn error_carries_location() {
    let (_, err) = run_program("define x -> int = 1\nwrite(missing)\n");
    let e = err.expect("expected an error");
    assert_eq!(e.kind, ErrorKind::UndefinedVariableError);
    assert_eq!(e.row, 2);
    assert_eq!(e.col, 7);
}

#[test]
fn output_before_failure_is_kept() {
    let (out, err) = run_program("define x -> int = 1\nwrite(x)\nwrite(missing)\n");
    assert_eq!(
        err.expect("expected an error").kind,
        ErrorKind::UndefinedVariableError
    );
    assert_eq!(out, b"1\n".to_vec());
}

#[test]
fn declaration_seeds_default_before_initializer() {
    let (out, err) = run_program("define x -> int = x + 3\nwrite(x)\n");
    assert!(err.is_none(), "unexpected error: {:?}", err);
    assert_eq!(out, b"3\n".to_vec());
}

#[test]
fn expression_may_use_other_variables() {
    let (out, err) = run_program(
        "define a -> int = 4\ndefine b -> i64 = a * a + 1\nwrite(b)\n",
    );
    assert!(err.is_none(), "unexpected error: {:?}", err);
    assert_eq!(out, b"17\n".to_vec());
}

#[test]
fn string_variable_in_expression_fails() {
    let (_, err) = run_program("define s -> string = \"x\"\ndefine n -> int = s + 1\n");
    assert_eq!(
        err.expect("expected an error").kind,
        ErrorKind::UndefinedVariableError
    );
}
