use mlang::{BaseReader, Engine, Op, ParseError, Reader, Session, SugarReader};

fn engine() -> Engine {
    let mut e = Engine::new();
    e.init();
    e
}

fn text(e: &Engine, op: Op) -> String {
    e.render(op).iter().collect()
}

fn parse_base(e: &mut Engine, src: &str) -> Op {
    let mut r = BaseReader::new(src);
    r.read(e).unwrap()
}

fn parse_sugar(e: &mut Engine, src: &str) -> Op {
    let mut r = SugarReader::new(src);
    r.read(e).unwrap()
}

#[test]
fn unterminated_list_is_unexpected_eof() {
    let mut e = engine();
    let mut r = BaseReader::new("(1 2");
    assert!(matches!(r.read(&mut e), Err(ParseError::UnexpectedEof)));
}

#[test]
fn empty_input_is_eof() {
    let mut e = engine();
    let mut r = BaseReader::new("");
    assert!(matches!(r.read(&mut e), Err(ParseError::Eof)));
}

#[test]
fn blank_input_is_eof() {
    let mut e = engine();
    let mut r = BaseReader::new("   \t\n");
    assert!(matches!(r.read(&mut e), Err(ParseError::Eof)));
}

#[test]
fn stray_delimiter_is_unexpected() {
    let mut e = engine();
    let mut r = BaseReader::new(")");
    assert!(matches!(r.read(&mut e), Err(ParseError::Unexpected(')'))));
}

#[test]
fn bad_char_in_quoted_symbol_is_unsupported() {
    let mut e = engine();
    let mut r = BaseReader::new("'ab#");
    assert!(matches!(r.read(&mut e), Err(ParseError::UnsupportedChar('#'))));
}

#[test]
fn sugared_call_parses_to_canonical_call_form() {
    let mut e = engine();
    let sugared = parse_sugar(&mut e, "foo(1,2)");
    let canonical = parse_base(&mut e, "(foo 1 2)");
    assert_eq!(text(&e, sugared), text(&e, canonical));
}

#[test]
fn dollar_read_desugars_to_get_scope() {
    let mut e = engine();
    let sugared = parse_sugar(&mut e, "$name");
    let canonical = parse_base(&mut e, "(get_scope name)");
    assert_eq!(text(&e, sugared), text(&e, canonical));
}

#[test]
fn dollar_assign_desugars_to_set_scope() {
    let mut e = engine();
    let sugared = parse_sugar(&mut e, "$x=4");
    let canonical = parse_base(&mut e, "(set_scope x 4)");
    assert_eq!(text(&e, sugared), text(&e, canonical));
}

#[test]
fn at_bracket_is_a_list_literal() {
    let mut e = engine();
    let sugared = parse_sugar(&mut e, "@[1, 2]");
    let canonical = parse_base(&mut e, "[1 2]");
    assert_eq!(text(&e, sugared), text(&e, canonical));
}

#[test]
fn at_arrow_desugars_to_lambda_lambda() {
    let mut e = engine();
    let sugared = parse_sugar(&mut e, "@->{ (add 1 2) }");
    let canonical = parse_base(&mut e, "(lambda_lambda (add 1 2))");
    assert_eq!(text(&e, sugared), text(&e, canonical));
}

#[test]
fn integer_literal_parses_to_its_value() {
    let mut e = engine();
    let v = parse_base(&mut e, "42");
    assert_eq!(text(&e, v), "42");
}

#[test]
fn oversized_integer_literal_saturates() {
    let mut e = engine();
    let v = parse_base(&mut e, "99999999999999999999999");
    assert_eq!(text(&e, v), "9223372036854775807");
}

#[test]
fn quoted_symbol_reads_its_text() {
    let mut e = engine();
    let v = parse_base(&mut e, "'abc'");
    assert_eq!(text(&e, v), "'abc'");
}

#[test]
fn minus_is_not_an_identifier() {
    let mut e = engine();
    let mut r = BaseReader::new("-5");
    assert!(matches!(r.read(&mut e), Err(ParseError::Unexpected('-'))));
}

#[test]
fn empty_delimiters_read_as_sentinel_pair() {
    let mut e = engine();
    let v = parse_base(&mut e, "()");
    assert!(!v.is_null());
    assert_eq!(text(&e, v), "[nil]");
}

#[test]
fn commas_are_tolerated_as_separators() {
    let mut e = engine();
    let with_commas = parse_base(&mut e, "(1, 2, 3)");
    let with_spaces = parse_base(&mut e, "(1 2 3)");
    assert_eq!(text(&e, with_commas), text(&e, with_spaces));
}

#[test]
fn session_accumulates_results() {
    let mut s = Session::new();
    s.read_and_eval("(add 1 2) (add 3 4)", false);
    assert_eq!(s.get_eval_result(), "3\n7\n");
    assert_eq!(s.get_parse_result(), "['add', 1, 2]\n['add', 3, 4]\n");
    assert_eq!(s.get_parse_error(), "");
    assert_eq!(s.get_eval_error(), "");
}

#[test]
fn session_reports_parse_error_text() {
    let mut s = Session::new();
    s.read_and_eval("(1 2", false);
    assert_eq!(s.get_parse_error(), "UnexpectedEof");
}

#[test]
fn session_reports_eval_error_text() {
    let mut s = Session::new();
    s.read_and_eval("(list_count 5)", false);
    assert_eq!(s.get_eval_error(), "RequirePair(5)");
}

#[test]
fn session_runs_sugared_syntax() {
    let mut s = Session::new();
    s.read_and_eval("$x=3 $x", true);
    assert_eq!(s.get_eval_result(), "3\n3\n");
}

#[test]
fn session_stops_at_first_error() {
    let mut s = Session::new();
    s.read_and_eval("(list_count 5) (add 1 2)", false);
    assert_eq!(s.get_eval_result(), "");
    assert_eq!(s.get_eval_error(), "RequirePair(5)");
}
