use mlang::eval::{subr_list_count, Error};
use mlang::{BaseReader, Engine, EvalError, Op, Reader, SugarReader};

fn engine() -> Engine {
    let mut e = Engine::new();
    e.init();
    e
}

fn text(e: &Engine, op: Op) -> String {
    e.render(op).iter().collect()
}

fn run_base(e: &mut Engine, src: &str) -> Result<Op, EvalError> {
    let mut r = BaseReader::new(src);
    let mut last = Ok(Op::Null);
    loop {
        match r.read(e) {
            Ok(op) => {
                last = e.eval(op);
                if last.is_err() {
                    return last;
                }
            }
            Err(_) => return last,
        }
    }
}

fn run_sugar(e: &mut Engine, src: &str) -> Result<Op, EvalError> {
    let mut r = SugarReader::new(src);
    let mut last = Ok(Op::Null);
    loop {
        match r.read(e) {
            Ok(op) => {
                last = e.eval(op);
                if last.is_err() {
                    return last;
                }
            }
            Err(_) => return last,
        }
    }
}

#[test]
fn intern_same_text_yields_same_handle() {
    let mut e = engine();
    let a = e.intern(vec!['x']);
    let b = e.intern(vec!['x']);
    assert_eq!(a, b);
}

#[test]
fn intern_distinct_texts_yield_distinct_handles() {
    let mut e = engine();
    let a = e.intern(vec!['x']);
    let c = e.intern(vec!['y']);
    assert_ne!(a, c);
}

#[test]
fn intern_matches_reader_symbols() {
    let mut e = engine();
    let mut r = BaseReader::new("abc 'abc'");
    let s1 = r.read(&mut e).unwrap();
    let s2 = r.read(&mut e).unwrap();
    let s3 = e.intern(vec!['a', 'b', 'c']);
    assert_eq!(s1, s2);
    assert_eq!(s1, s3);
}

#[test]
fn add_two_integers() {
    let mut e = engine();
    let v = run_base(&mut e, "(add 1 2)").unwrap();
    assert_eq!(text(&e, v), "3");
}

#[test]
fn add_non_integer_reports_require_long() {
    let mut e = engine();
    let r = run_base(&mut e, "(define x (lambda () 1)) (add 1 'x')");
    assert!(matches!(r, Err(Error::RequireLong(_))));
}

#[test]
fn add_rejects_a_symbol_operand_directly() {
    let mut e = engine();
    let sym = e.intern(vec!['x']);
    let one = Op::long(&mut e, 1);
    let rest = Op::pair(&mut e, sym, Op::Null);
    let args = Op::pair(&mut e, one, rest);
    let r = mlang::eval::subr_add(&mut e, args, Op::Null, 0);
    assert!(matches!(r, Err(Error::RequireLong(s)) if s == sym));
}

#[test]
fn add_missing_operand_reports_too_few_args() {
    let mut e = engine();
    let r = run_base(&mut e, "(add 1)");
    assert!(matches!(r, Err(Error::TooFewArgs)));
}

#[test]
fn subtract_goes_below_zero() {
    let mut e = engine();
    let v = run_base(&mut e, "(subtract 5 9)").unwrap();
    assert_eq!(text(&e, v), "-4");
}

#[test]
fn mul_two_integers() {
    let mut e = engine();
    let v = run_base(&mut e, "(mul 6 7)").unwrap();
    assert_eq!(text(&e, v), "42");
}

#[test]
fn div_truncates() {
    let mut e = engine();
    let v = run_base(&mut e, "(div 7 2)").unwrap();
    assert_eq!(text(&e, v), "3");
}

#[test]
fn div_by_zero_is_reported() {
    let mut e = engine();
    let r = run_base(&mut e, "(div 1 0)");
    assert!(matches!(r, Err(Error::DivideByZero)));
}

#[test]
fn shadowing_parameter_wins_over_global() {
    let mut e = engine();
    let v = run_base(&mut e, "(define x 1) ((lambda (x) x) 9)").unwrap();
    assert_eq!(text(&e, v), "9");
}

#[test]
fn closure_observes_later_global_definition() {
    let mut e = engine();
    let v = run_base(&mut e, "(define f (lambda () y)) (define y 5) (apply f ())").unwrap();
    assert_eq!(text(&e, v), "5");
}

#[test]
fn undefined_symbol_is_reported() {
    let mut e = engine();
    let r = run_base(&mut e, "zzz");
    assert!(matches!(r, Err(Error::Undefined(_))));
}

#[test]
fn define_non_symbol_reports_require_symbol() {
    let mut e = engine();
    let r = run_base(&mut e, "(define 1 2)");
    assert!(matches!(r, Err(Error::RequireSymbol(_))));
}

#[test]
fn lambda_without_body_reports_too_few_args() {
    let mut e = engine();
    let r = run_base(&mut e, "(lambda (x))");
    assert!(matches!(r, Err(Error::TooFewArgs)));
}

#[test]
fn apply_non_function_reports_can_not_apply() {
    let mut e = engine();
    let r = run_base(&mut e, "(apply 1 ())");
    assert!(matches!(r, Err(Error::CanNotApply(_))));
}

#[test]
fn closure_with_too_few_arguments() {
    let mut e = engine();
    let r = run_base(&mut e, "((lambda (x y) x) 1)");
    assert!(matches!(r, Err(Error::TooFewArgs)));
}

#[test]
fn variadic_tail_binds_remaining_arguments() {
    let mut e = engine();
    let v = run_base(&mut e, "((lambda a (list_count a)) 1 2 3)").unwrap();
    assert_eq!(text(&e, v), "3");
}

#[test]
fn list_append_then_count() {
    let mut e = engine();
    let v = run_base(&mut e, "(list_count (list_append (list_append (new_list) 1) 2))").unwrap();
    assert_eq!(text(&e, v), "2");
}

#[test]
fn list_index_reads_by_position() {
    let mut e = engine();
    run_base(&mut e, "(define l (new_list)) (list_append l 1) (list_append l 2)").unwrap();
    let v = run_base(&mut e, "(list_index l 1)").unwrap();
    assert_eq!(text(&e, v), "2");
}

#[test]
fn list_index_past_end_is_nil() {
    let mut e = engine();
    run_base(&mut e, "(define l (new_list)) (list_append l 1) (list_append l 2)").unwrap();
    let v = run_base(&mut e, "(list_index l 5)").unwrap();
    assert_eq!(text(&e, v), "nil");
    assert!(v.is_null());
}

#[test]
fn list_count_of_fresh_list_is_zero() {
    let mut e = engine();
    let v = run_base(&mut e, "(list_count (new_list))").unwrap();
    assert_eq!(text(&e, v), "0");
}

#[test]
fn list_prepend_puts_element_in_front() {
    let mut e = engine();
    run_base(&mut e, "(define l (new_list)) (list_append l 2) (list_prepend l 1)").unwrap();
    let first = run_base(&mut e, "(list_index l 0)").unwrap();
    let count = run_base(&mut e, "(list_count l)").unwrap();
    assert_eq!(text(&e, first), "1");
    assert_eq!(text(&e, count), "2");
}

#[test]
fn malformed_list_reports_require_pair() {
    let mut e = engine();
    let one = Op::long(&mut e, 1);
    let two = Op::long(&mut e, 2);
    let dotted = Op::pair(&mut e, one, two);
    let args = Op::pair(&mut e, dotted, Op::Null);
    let r = subr_list_count(&mut e, args, Op::Null, 16);
    assert!(matches!(r, Err(Error::RequirePair(_))));
    if let Err(Error::RequirePair(t)) = r {
        assert_eq!(t, two);
    }
}

#[test]
fn list_map_applies_closure_to_each_element() {
    let mut e = engine();
    run_base(&mut e, "(define l (new_list)) (list_append l 1) (list_append l 2)").unwrap();
    let v = run_sugar(&mut e, "(list_map l @->{ (mul $0 10) })").unwrap();
    assert_eq!(text(&e, v), "[10, 20]");
}

#[test]
fn list_map_requires_a_closure() {
    let mut e = engine();
    let r = run_base(&mut e, "(list_map (list_append (new_list) 1) 7)");
    assert!(matches!(r, Err(Error::RequireExpr(_))));
}

#[test]
fn get_scope_hands_non_key_back() {
    let mut e = engine();
    let v = run_sugar(&mut e, "$5").unwrap();
    assert_eq!(text(&e, v), "5");
}

#[test]
fn set_then_get_scoped_variable() {
    let mut e = engine();
    let v = run_sugar(&mut e, "$x=7 $x").unwrap();
    assert_eq!(text(&e, v), "7");
}

#[test]
fn dotted_pair_renders_with_dot() {
    let mut e = engine();
    let one = Op::long(&mut e, 1);
    let two = Op::long(&mut e, 2);
    let dotted = Op::pair(&mut e, one, two);
    assert_eq!(text(&e, dotted), "[1 . 2]");
}

#[test]
fn nested_list_round_trips_through_render() {
    let mut e = engine();
    let mut r = BaseReader::new("[1, [2, 3]]");
    let v = r.read(&mut e).unwrap();
    assert_eq!(text(&e, v), "[1, [2, 3]]");
}

#[test]
fn globals_symbol_renders_as_the_global_frame() {
    let mut e = engine();
    let v = run_base(&mut e, "globals").unwrap();
    assert_eq!(text(&e, v), "<globals>");
}

#[test]
fn built_in_value_renders_by_name() {
    let mut e = engine();
    let v = run_base(&mut e, "add").unwrap();
    assert_eq!(text(&e, v), "<subr add>");
}

#[test]
fn define_returns_the_value() {
    let mut e = engine();
    let v = run_base(&mut e, "(define x 41)").unwrap();
    assert_eq!(text(&e, v), "41");
    let w = run_base(&mut e, "x").unwrap();
    assert_eq!(text(&e, w), "41");
}

#[test]
fn non_applicable_operator_is_rejected() {
    let mut e = engine();
    let r = run_base(&mut e, "(1 2)");
    assert!(matches!(r, Err(Error::CanNotApply(_))));
}

#[test]
fn empty_list_value_evaluates_to_a_fresh_empty_list() {
    let mut e = engine();
    let v = run_base(&mut e, "()").unwrap();
    assert!(!v.is_null());
    assert_eq!(text(&e, v), "[nil]");
}
