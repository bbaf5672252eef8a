use blispr::error::Error;
use blispr::eval::{
    builtin_add, builtin_cons, builtin_def, builtin_div, builtin_eval, builtin_eval_stub,
    builtin_exit, builtin_head, builtin_init, builtin_join, builtin_lambda, builtin_len,
    builtin_list, builtin_max, builtin_min, builtin_mul, builtin_op, builtin_pow,
    builtin_printenv, builtin_printenv_stub, builtin_put, builtin_put_stub, builtin_rem,
    builtin_sub, builtin_tail, builtin_var, lval_call, lval_call_within, lval_eval,
    lval_eval_within, MAX_DEPTH,
};
use blispr::lenv::Lenv;
use blispr::lookup::LEnvLookup;
use blispr::lval::{builtin, lambda, num, qexpr, sexpr, sym, LBuiltin, Lval};
use blispr::parse::{eval_str, BlisprParser};

fn run(text: &str) -> Result<Box<Lval>, Error> {
    eval_str(&mut Lenv::new(None, None), text)
}

fn shown(text: &str) -> String {
    run(text).unwrap().to_string()
}

fn args(text: &str) -> Box<Lval> {
    match *BlisprParser::parse(text).unwrap() {
        Lval::Blispr(mut forms) => forms.remove(0),
        other => panic!("a program was expected, not {:?}", other),
    }
}

fn wrong(expected: &str, got: &str) -> Result<Box<Lval>, Error> {
    Err(Error::WrongType(expected.to_string(), got.to_string()))
}

#[test]
fn values_that_are_not_lists_evaluate_to_themselves() {
    assert_eq!(shown("5"), "5");
    assert_eq!(shown("{1 (+ 1 2) x}"), "{1 (+ 1 2) x}");
    assert_eq!(shown("()"), "()");
    assert_eq!(shown("+"), "<builtin: +>");
    assert_eq!(shown("head"), "<builtin: head>");
    assert_eq!(shown("(\\ {x} {x})"), "(\\ {x} {x})");
}

#[test]
fn the_empty_program_evaluates_to_itself() {
    assert_eq!(run(""), Ok(Box::new(Lval::Blispr(vec![]))));
    assert_eq!(run(" ; nothing\n"), Ok(Box::new(Lval::Blispr(vec![]))));
}

#[test]
fn a_list_of_one_gives_its_cell() {
    assert_eq!(shown("(5)"), "5");
    assert_eq!(shown("((5))"), "5");
    assert_eq!(shown("(+)"), "<builtin: +>");
    assert_eq!(shown("({1 2})"), "{1 2}");
}

#[test]
fn evaluating_a_result_again_changes_nothing() {
    let mut env = Lenv::new(None, None);
    for text in ["(+ 1 2)", "(list 1 2 3)", "(tail {1 2 3})", "(\\ {x} {x})", "()", "head"] {
        let mut once = eval_str(&mut env, text).unwrap();
        let twice = lval_eval(&mut env, &mut once).unwrap();
        assert_eq!(twice, once);
    }
}

#[test]
fn a_symbol_gives_what_it_is_bound_to() {
    assert_eq!(run("x"), Err(Error::UnknownFunction("x".to_string())));
    assert_eq!(run("(+ 1 y)"), Err(Error::UnknownFunction("y".to_string())));
    assert_eq!(shown("(def {x} 5) x"), "5");
    assert_eq!(shown("(def {x} 5) (def {x} 6) x"), "6");
    assert_eq!(shown("(def {x} {a b}) x"), "{a b}");
}

#[test]
fn the_first_failure_ends_the_evaluation() {
    assert_eq!(run("(+ 1 (/ 1 0) z)"), Err(Error::DivideByZero));
    assert_eq!(run("(+ 1 z (/ 1 0))"), Err(Error::UnknownFunction("z".to_string())));
    assert_eq!(run("(def {x} 1) (head {}) (def {x} 2)"), Err(Error::EmptyList));
    let mut env = Lenv::new(None, None);
    assert_eq!(
        eval_str(&mut env, "(def {x} 1) (head {}) (def {x} 2)"),
        Err(Error::EmptyList)
    );
    assert_eq!(eval_str(&mut env, "x"), Ok(num(1)));
}

#[test]
fn calling_what_is_no_function_is_a_wrong_type() {
    assert_eq!(run("(1 2)"), wrong("Function", "1"));
    assert_eq!(run("({a} 2 3)"), wrong("Function", "{a}"));
    assert_eq!(run("(() 2)"), wrong("Function", "()"));
}

#[test]
fn arithmetic_folds_from_the_left() {
    assert_eq!(shown("(+ 1 2 3 4)"), "10");
    assert_eq!(shown("(add 1 2 3 4)"), "10");
    assert_eq!(shown("(- 10 1 2 3)"), "4");
    assert_eq!(shown("(sub 10 1 2 3)"), "4");
    assert_eq!(shown("(* 2 3 4 5)"), "120");
    assert_eq!(shown("(mul 2 3 4 5)"), "120");
    assert_eq!(shown("(/ 100 5 2 3)"), "3");
    assert_eq!(shown("(div 100 5 2 3)"), "3");
    assert_eq!(shown("(% 100 7 2)"), "0");
    assert_eq!(shown("(rem 17 5)"), "2");
    assert_eq!(shown("(^ 2 3 2)"), "64");
    assert_eq!(shown("(pow 2 10)"), "1024");
    assert_eq!(shown("(max 1 5 3 4)"), "5");
    assert_eq!(shown("(min 4 5 1 3)"), "1");
    for op in ["+", "-", "*", "/", "%", "^", "max", "min"] {
        let flat = shown(&format!("({op} 7 3 2 2)"));
        let nested = shown(&format!("({op} ({op} ({op} 7 3) 2) 2)"));
        assert_eq!(flat, nested);
    }
}

#[test]
fn subtraction_of_one_number_negates_it() {
    assert_eq!(shown("(- 5)"), "-5");
    assert_eq!(shown("(- -5)"), "5");
    assert_eq!(shown("(- 0)"), "0");
    assert_eq!(shown("(sub 9)"), "-9");
    assert_eq!(shown("(- -9223372036854775808)"), "-9223372036854775808");
    assert_eq!(shown("(+ 5)"), "5");
    assert_eq!(shown("(* 5)"), "5");
    assert_eq!(shown("(/ 5)"), "5");
}

#[test]
fn division_rounds_toward_zero() {
    assert_eq!(shown("(/ 7 2)"), "3");
    assert_eq!(shown("(/ -7 2)"), "-3");
    assert_eq!(shown("(/ 7 -2)"), "-3");
    assert_eq!(shown("(/ -7 -2)"), "3");
    assert_eq!(shown("(/ 0 5)"), "0");
    assert_eq!(shown("(% 7 2)"), "1");
    assert_eq!(shown("(% -7 2)"), "-1");
    assert_eq!(shown("(% 7 -2)"), "1");
    assert_eq!(shown("(% -7 -2)"), "-1");
    assert_eq!(shown("(% 0 5)"), "0");
}

#[test]
fn arithmetic_wraps_around() {
    assert_eq!(shown("(+ 9223372036854775807 1)"), "-9223372036854775808");
    assert_eq!(shown("(- -9223372036854775808 1)"), "9223372036854775807");
    assert_eq!(shown("(* 4611686018427387904 2)"), "-9223372036854775808");
    assert_eq!(shown("(/ -9223372036854775808 -1)"), "-9223372036854775808");
    assert_eq!(shown("(% -9223372036854775808 -1)"), "0");
    assert_eq!(shown("(^ 2 63)"), "-9223372036854775808");
    assert_eq!(shown("(^ 2 64)"), "0");
}

#[test]
fn powers_multiply_again_and_again() {
    assert_eq!(shown("(^ 3 0)"), "1");
    assert_eq!(shown("(^ 3 1)"), "3");
    assert_eq!(shown("(^ 3 4)"), "81");
    assert_eq!(shown("(^ -2 3)"), "-8");
    assert_eq!(shown("(^ 0 0)"), "1");
    assert_eq!(shown("(^ 5 -1)"), "1");
}

#[test]
fn dividing_by_zero_fails() {
    assert_eq!(run("(/ 1 0)"), Err(Error::DivideByZero));
    assert_eq!(run("(% 1 0)"), Err(Error::DivideByZero));
    assert_eq!(run("(div 10 2 0)"), Err(Error::DivideByZero));
    assert_eq!(run("(rem 10 3 0)"), Err(Error::DivideByZero));
    assert_eq!(run("(/ 0 0)"), Err(Error::DivideByZero));
    assert_eq!(run("(/ {1} 0)"), Err(Error::DivideByZero));
    assert_eq!(run("(/ 1 0 {x})"), Err(Error::DivideByZero));
}

#[test]
fn arithmetic_on_what_is_no_number_fails() {
    assert_eq!(run("(+ 1 {2})"), Err(Error::NotANumber));
    assert_eq!(run("(+ {1} 2)"), Err(Error::NotANumber));
    assert_eq!(run("(- {1})"), Err(Error::NotANumber));
    assert_eq!(run("(+ {1})"), Err(Error::NotANumber));
    assert_eq!(run("(* 1 2 head)"), Err(Error::NotANumber));
    assert_eq!(run("(/ 1 {0})"), Err(Error::NotANumber));
    assert_eq!(run("(max 1 ())"), Err(Error::NotANumber));
}

#[test]
fn arithmetic_builtins_on_argument_lists() {
    assert_eq!(builtin_add(&mut args("(1 2 3)")), Ok(num(6)));
    assert_eq!(builtin_sub(&mut args("(1 2 3)")), Ok(num(-4)));
    assert_eq!(builtin_mul(&mut args("(2 3 4)")), Ok(num(24)));
    assert_eq!(builtin_div(&mut args("(16 4 2)")), Ok(num(2)));
    assert_eq!(builtin_rem(&mut args("(23 5 2)")), Ok(num(1)));
    assert_eq!(builtin_pow(&mut args("(2 4 4)")), Ok(num(65536)));
    assert_eq!(builtin_max(&mut args("(1 3 2)")), Ok(num(3)));
    assert_eq!(builtin_min(&mut args("(1 3 2)")), Ok(num(1)));
    assert_eq!(builtin_op(&mut args("(1 2 3)"), "add"), Ok(num(6)));
    assert_eq!(builtin_op(&mut args("(1 2 3)"), "sub"), Ok(num(-4)));
    assert_eq!(builtin_op(&mut args("(2 3)"), "mul"), Ok(num(6)));
    assert_eq!(builtin_op(&mut args("(7 2)"), "div"), Ok(num(3)));
    assert_eq!(builtin_op(&mut args("(7 2)"), "rem"), Ok(num(1)));
    assert_eq!(builtin_op(&mut args("(7 2)"), "pow"), Ok(num(49)));
    assert_eq!(builtin_op(&mut args("(7 2)"), "min"), Ok(num(2)));
    assert_eq!(builtin_op(&mut args("(7 2)"), "max"), Ok(num(7)));
    assert_eq!(builtin_add(&mut sexpr()), Err(Error::NumArguments(1, 0)));
    assert_eq!(builtin_add(&mut args("{1 2}")), Ok(args("{1 2}")));
    assert_eq!(builtin_add(&mut num(4)), Ok(num(4)));
}

#[test]
fn builtins_leave_their_arguments_as_they_were() {
    let mut a = args("(1 2 3)");
    builtin_add(&mut a).unwrap();
    assert_eq!(a, args("(1 2 3)"));
    let mut b = args("({1 2} {3})");
    builtin_join(&mut b).unwrap();
    builtin_head(&mut b).unwrap();
    builtin_tail(&mut b).unwrap();
    assert_eq!(b, args("({1 2} {3})"));
}

#[test]
fn list_wraps_its_arguments() {
    assert_eq!(shown("(list 1 {2} (+ 1 2))"), "{1 {2} 3}");
    assert_eq!(builtin_list(&mut sexpr()), Ok(qexpr()));
    assert_eq!(builtin_list(&mut num(3)), Ok(num(3)));
}

#[test]
fn head_gives_the_first_element() {
    assert_eq!(shown("(head {7 8 9})"), "7");
    assert_eq!(shown("(head {{1 2} 3})"), "{1 2}");
    assert_eq!(shown("(head {(+ 1 2)})"), "(+ 1 2)");
    assert_eq!(run("(head {})"), Err(Error::EmptyList));
    assert_eq!(run("(head 1)"), wrong("qexpr", "1"));
    assert_eq!(run("(head {} 1)"), Err(Error::EmptyList));
    assert_eq!(shown("(head {1} {2})"), "1");
    assert_eq!(run("(head (list))"), wrong("qexpr", "<builtin: list>"));
    assert_eq!(builtin_head(&mut sexpr()), Err(Error::NumArguments(1, 0)));
    assert_eq!(builtin_head(&mut num(1)), Err(Error::NoChildren));
}

#[test]
fn tail_gives_all_but_the_first_element() {
    assert_eq!(shown("(tail {7 8 9})"), "{8 9}");
    assert_eq!(shown("(tail {7})"), "{}");
    assert_eq!(run("(tail {})"), Err(Error::EmptyList));
    assert_eq!(run("(tail 1)"), wrong("qexpr", "1"));
    assert_eq!(builtin_tail(&mut sexpr()), Err(Error::NumArguments(1, 0)));
}

#[test]
fn init_gives_all_but_the_last_element() {
    assert_eq!(shown("(init {7 8 9})"), "{7 8}");
    assert_eq!(shown("(init {7})"), "{}");
    assert_eq!(shown("(init {})"), "{}");
    assert_eq!(run("(init 1)"), wrong("qexpr", "1"));
    assert_eq!(builtin_init(&mut sexpr()), Err(Error::NumArguments(1, 0)));
}

#[test]
fn join_puts_lists_together() {
    assert_eq!(shown("(join {1} {2 3} {} {4})"), "{1 2 3 4}");
    assert_eq!(shown("(join {1 2})"), "{1 2}");
    assert_eq!(run("(join {1} 2 {3})"), wrong("qexpr", "2"));
    assert_eq!(run("(join {1} {2} (+))"), wrong("qexpr", "<builtin: +>"));
    assert_eq!(builtin_join(&mut sexpr()), Ok(qexpr()));
    assert_eq!(builtin_join(&mut num(1)), Err(Error::NoChildren));
}

#[test]
fn cons_puts_a_value_in_front() {
    assert_eq!(shown("(cons 1 {})"), "{1}");
    assert_eq!(shown("(cons {1} {2 3})"), "{{1} 2 3}");
    assert_eq!(run("(cons 1)"), Err(Error::NumArguments(2, 1)));
    assert_eq!(run("(cons 1 {2} 3)"), Err(Error::NumArguments(2, 3)));
    assert_eq!(run("(cons 1 2)"), wrong("qexpr", "2"));
    assert_eq!(builtin_cons(&mut sexpr()), Err(Error::NumArguments(2, 0)));
    assert_eq!(builtin_cons(&mut num(1)), Err(Error::NoChildren));
}

#[test]
fn cons_then_head_and_tail_give_the_parts() {
    assert_eq!(shown("(head (cons 1 {2 3}))"), "1");
    assert_eq!(shown("(tail (cons 1 {2 3}))"), "{2 3}");
    assert_eq!(shown("(head (cons {a} {}))"), "{a}");
    assert_eq!(shown("(tail (cons {a} {}))"), "{}");
}

#[test]
fn len_counts_the_elements() {
    assert_eq!(shown("(len {})"), "0");
    assert_eq!(shown("(len {a})"), "1");
    assert_eq!(shown("(len {1 {2 3} (4 5) 6})"), "4");
    assert_eq!(run("(len {1} {2})"), Err(Error::NumArguments(1, 2)));
    assert_eq!(run("(len 5)"), wrong("qexpr", "5"));
    assert_eq!(builtin_len(&mut sexpr()), Err(Error::NumArguments(1, 0)));
    assert_eq!(builtin_len(&mut num(1)), Err(Error::NoChildren));
}

#[test]
fn eval_evaluates_a_quoted_list() {
    assert_eq!(shown("(eval {+ 1 2})"), "3");
    assert_eq!(shown("(eval {head {5 6}})"), "5");
    assert_eq!(shown("(eval (list + 1 2))"), "3");
    assert_eq!(shown("(eval {})"), "()");
    assert_eq!(shown("(eval 5)"), "5");
    assert_eq!(shown("(eval (tail {1 + 2 3}))"), "5");
    assert_eq!(run("(eval {/ 1 0})"), Err(Error::DivideByZero));
    let mut env = Lenv::new(None, None);
    assert_eq!(builtin_eval(&mut env, &mut args("({* 6 7})")), Ok(num(42)));
    assert_eq!(builtin_eval(&mut env, &mut sexpr()), Err(Error::NumArguments(1, 0)));
    assert_eq!(builtin_eval(&mut env, &mut num(1)), Err(Error::NoChildren));
}

#[test]
fn the_stand_ins_give_the_empty_list() {
    assert_eq!(builtin_put_stub(&mut args("({x} 1)")), Ok(sexpr()));
    assert_eq!(builtin_eval_stub(&mut args("({+ 1 2})")), Ok(sexpr()));
    assert_eq!(builtin_printenv_stub(&mut sexpr()), Ok(sexpr()));
}

#[test]
fn exit_asks_for_the_end() {
    assert_eq!(builtin_exit(&mut sexpr()), Err(Error::Exit));
    assert_eq!(run("(exit 0)"), Err(Error::Exit));
    assert_eq!(run("(+ 1 (exit 0))"), Err(Error::Exit));
    assert_eq!(shown("exit"), "<builtin: exit>");
}

#[test]
fn def_binds_in_the_root() {
    assert_eq!(shown("(def {x} 12)"), "()");
    assert_eq!(shown("(def {a b c} 1 2 3) (list a b c)"), "{1 2 3}");
    assert_eq!(shown("(def {} )"), "()");
    assert_eq!(shown("((\\ {v} {def {seen} v}) 5) seen"), "5");
    assert_eq!(shown("(def {+} -) (+ 5 3)"), "2");
}

#[test]
fn def_with_the_wrong_number_of_values_fails() {
    assert_eq!(run("(def {a b} 1)"), Err(Error::NumArguments(2, 1)));
    assert_eq!(run("(def {a} 1 2 3)"), Err(Error::NumArguments(1, 3)));
    assert_eq!(run("(def {a b})"), Err(Error::NumArguments(2, 0)));
    let mut env = Lenv::new(None, None);
    assert_eq!(eval_str(&mut env, "(def {a b} 1)"), Err(Error::NumArguments(2, 1)));
    assert_eq!(eval_str(&mut env, "a"), Err(Error::UnknownFunction("a".to_string())));
}

#[test]
fn def_needs_a_list_of_symbols() {
    assert_eq!(run("(def 1 2)"), wrong("qexpr", "1"));
    assert_eq!(run("(def {a 1} 2 3)"), wrong("symbol", "1"));
    let mut env = Lenv::new(None, None);
    assert_eq!(eval_str(&mut env, "(def {a 1 c} 2 3 4)"), wrong("symbol", "1"));
    assert_eq!(eval_str(&mut env, "a"), Ok(num(2)));
    assert_eq!(eval_str(&mut env, "c"), Err(Error::UnknownFunction("c".to_string())));
    assert_eq!(builtin_def(&mut env, &mut sexpr()), Err(Error::NumArguments(1, 0)));
    assert_eq!(builtin_def(&mut env, &mut num(1)), Err(Error::NoChildren));
}

#[test]
fn put_binds_in_the_scope_of_the_call() {
    assert_eq!(shown("(= {x} 3) x"), "3");
    assert_eq!(shown("((\\ {v} {= {hidden} v}) 5)"), "()");
    assert_eq!(
        run("((\\ {v} {= {hidden} v}) 5) hidden"),
        Err(Error::UnknownFunction("hidden".to_string()))
    );
    let mut root = Lenv::new(None, None);
    root.enter(LEnvLookup::new());
    assert_eq!(builtin_put(&mut root, &mut args("({x} 1)")), Ok(sexpr()));
    assert_eq!(builtin_def(&mut root, &mut args("({y} 2)")), Ok(sexpr()));
    assert_eq!(builtin_var(&mut root, &mut args("({z} 3)"), "="), Ok(sexpr()));
    assert_eq!(builtin_var(&mut root, &mut args("({w} 4)"), "def"), Ok(sexpr()));
    assert_eq!(root.list_all().unwrap().to_string(), "{x:1 z:3}");
    root.leave();
    assert_eq!(root.get("y"), Ok(num(2)));
    assert_eq!(root.get("w"), Ok(num(4)));
    assert_eq!(root.get("x"), Err(Error::UnknownFunction("x".to_string())));
}

#[test]
fn lambda_builds_a_function() {
    assert_eq!(shown("(\\ {x y} {+ x y})"), "(\\ {x y} {+ x y})");
    assert_eq!(shown("(\\ {} {5})"), "(\\ {} {5})");
    assert_eq!(run("(\\ {x})"), Err(Error::NumArguments(2, 1)));
    assert_eq!(run("(\\ {x} {x} {x})"), Err(Error::NumArguments(2, 3)));
    assert_eq!(run("(\\ 1 {x})"), wrong("Q-Expression", "1"));
    assert_eq!(run("(\\ {x} 1)"), wrong("Q-Expression", "1"));
    assert_eq!(run("(\\ {x 2 {y}} {x})"), wrong("Symbol", "2"));
    assert_eq!(run("(\\ {x 2} 5)"), wrong("Symbol", "2"));
    assert_eq!(
        builtin_lambda(&mut args("({x} {x})")),
        Ok(lambda(LEnvLookup::new(), args("{x}"), args("{x}")))
    );
    assert_eq!(builtin_lambda(&mut num(1)), Err(Error::NoChildren));
}

#[test]
fn a_function_binds_its_parameters() {
    assert_eq!(shown("((\\ {x} {x}) 5)"), "5");
    assert_eq!(shown("((\\ {x y} {- x y}) 5 3)"), "2");
    assert_eq!(shown("((\\ {x} {list x x}) {a})"), "{{a} {a}}");
    assert_eq!(shown("(def {x} 1) ((\\ {x} {+ x 1}) 10)"), "11");
    assert_eq!(shown("(def {x} 1) ((\\ {y} {+ x y}) 10) x"), "1");
    assert_eq!(shown("(def {twice} (\\ {f v} {f (f v)})) (twice (\\ {n} {* n n}) 3)"), "81");
}

#[test]
fn too_many_arguments_fail() {
    assert_eq!(run("((\\ {x} {x}) 1 2)"), Err(Error::NumArguments(1, 2)));
    assert_eq!(run("((\\ {x y} {x}) 1 2 3 4)"), Err(Error::NumArguments(2, 4)));
    assert_eq!(run("((\\ {} {5}) 1)"), Err(Error::NumArguments(0, 1)));
}

#[test]
fn fewer_arguments_give_a_function_that_waits() {
    assert_eq!(shown("((\\ {x y} {+ x y}) 2)"), "(\\ {y} {+ x y})");
    assert_eq!(shown("(((\\ {x y} {+ x y}) 2) 3)"), "5");
    assert_eq!(shown("((((\\ {a b c} {list a b c}) 1) 2) 3)"), "{1 2 3}");
    assert_eq!(shown("(((\\ {a b c} {list a b c}) 1) 2 3)"), "{1 2 3}");
    assert_eq!(shown("(((\\ {a b c} {list a b c}) 1 2) 3)"), "{1 2 3}");
    assert_eq!(
        shown("(def {f} (\\ {a b c} {- a b c})) (def {g} (f 10)) (def {h} (g 3)) (list (h 2) (g 1 1) (h 0))"),
        "{5 8 7}"
    );
}

#[test]
fn the_parameter_after_an_ampersand_takes_the_rest() {
    assert_eq!(shown("((\\ {x & xs} {xs}) 1 2 3)"), "{2 3}");
    assert_eq!(shown("((\\ {x & xs} {x}) 1 2 3)"), "1");
    assert_eq!(shown("((\\ {& xs} {xs}) 1)"), "{1}");
    assert_eq!(shown("((\\ {& xs} {len xs}) 1 2 3 4)"), "4");
    assert_eq!(shown("((\\ {x & xs} {xs}) 1)"), "(\\ {& xs} {xs})");
    assert_eq!(run("((\\ {x & y z} {x}) 1 2)"), Err(Error::FunctionFormat));
    assert_eq!(run("((\\ {x &} {x}) 1 2)"), Err(Error::FunctionFormat));
}

#[test]
fn a_function_value_made_by_hand_checks_its_parameters() {
    let mut env = Lenv::new(None, None);
    let f = lambda(LEnvLookup::new(), args("{x 1}"), args("{x}"));
    assert_eq!(lval_call(&mut env, *f.clone(), &mut args("(5)")), Ok(lambda(
        {
            let mut m = LEnvLookup::new();
            m.insert("x".to_string(), num(5));
            m
        },
        args("{1}"),
        args("{x}"),
    )));
    assert_eq!(lval_call(&mut env, *f, &mut args("(5 6)")), wrong("symbol", "1"));
    let g = lambda(LEnvLookup::new(), args("{& 1}"), args("{x}"));
    assert_eq!(lval_call(&mut env, *g, &mut args("(5 6)")), wrong("symbol", "1"));
    let h = lambda(LEnvLookup::new(), num(1), args("{x}"));
    assert_eq!(lval_call(&mut env, *h, &mut args("(5)")), Err(Error::NoChildren));
    let k = lambda(LEnvLookup::new(), args("{x}"), args("{x}"));
    assert_eq!(lval_call(&mut env, *k.clone(), &mut num(5)), Err(Error::NoChildren));
    assert_eq!(lval_call(&mut env, *k, &mut sexpr()), Ok(lambda(
        LEnvLookup::new(),
        args("{x}"),
        args("{x}"),
    )));
}

#[test]
fn bindings_that_a_function_came_with_are_in_scope() {
    let mut captures = LEnvLookup::new();
    captures.insert("a".to_string(), num(100));
    captures.insert("x".to_string(), num(1));
    let f = lambda(captures, args("{x}"), args("{+ a x}"));
    let mut env = Lenv::new(None, None);
    assert_eq!(lval_call(&mut env, *f, &mut args("(5)")), Ok(num(105)));
}

#[test]
fn calling_a_builtin_runs_it_on_the_arguments() {
    let mut env = Lenv::new(None, None);
    assert_eq!(
        lval_call(&mut env, *builtin(LBuiltin::Add, "+"), &mut args("(1 2)")),
        Ok(num(3))
    );
    assert_eq!(
        lval_call(&mut env, *builtin(LBuiltin::Mul, "times"), &mut args("(4 5)")),
        Ok(num(20))
    );
    assert_eq!(
        lval_call(&mut env, *builtin(LBuiltin::EvalStub, "eval"), &mut args("({+ 1 2})")),
        Ok(num(3))
    );
    assert_eq!(
        lval_call(&mut env, *builtin(LBuiltin::EvalStub, "other"), &mut args("({+ 1 2})")),
        Ok(sexpr())
    );
    assert_eq!(
        lval_call(&mut env, *builtin(LBuiltin::PutStub, "def"), &mut args("({q} 9)")),
        Ok(sexpr())
    );
    assert_eq!(env.get("q"), Ok(num(9)));
    assert_eq!(lval_call(&mut env, *num(1), &mut args("(1)")), wrong("Function", "1"));
    assert_eq!(
        lval_call(&mut env, *sym("+"), &mut args("(1)")),
        wrong("Function", "+")
    );
}

#[test]
fn the_scope_of_a_call_ends_with_the_call() {
    let mut env = Lenv::new(None, None);
    assert_eq!(eval_str(&mut env, "((\\ {x} {x}) 5)"), Ok(num(5)));
    assert!(env.parent.is_none());
    assert_eq!(eval_str(&mut env, "x"), Err(Error::UnknownFunction("x".to_string())));
    assert_eq!(eval_str(&mut env, "((\\ {x} {/ x 0}) 5)"), Err(Error::DivideByZero));
    assert!(env.parent.is_none());
}

#[test]
fn nesting_deeper_than_the_limit_fails() {
    let mut env = Lenv::new(None, None);
    assert_eq!(
        eval_str(&mut env, "(def {f} (\\ {x} {f x})) (f 1)"),
        Err(Error::DepthExceeded)
    );
    assert!(env.parent.is_none());
    assert_eq!(eval_str(&mut env, "(+ 1 2)"), Ok(num(3)));
}

#[test]
fn the_limit_counts_lists_inside_lists() {
    let mut env = Lenv::new(None, None);
    assert_eq!(lval_eval_within(&mut env, &mut args("5"), 0), Ok(num(5)));
    assert_eq!(lval_eval_within(&mut env, &mut args("()"), 0), Ok(sexpr()));
    assert_eq!(lval_eval_within(&mut env, &mut args("{+ 1 2}"), 0), Ok(args("{+ 1 2}")));
    assert_eq!(lval_eval_within(&mut env, &mut args("(+ 1 2)"), 0), Err(Error::DepthExceeded));
    assert_eq!(lval_eval_within(&mut env, &mut args("(+ 1 2)"), 1), Ok(num(3)));
    assert_eq!(lval_eval_within(&mut env, &mut args("(+ 1 (+ 1 1))"), 1), Err(Error::DepthExceeded));
    assert_eq!(lval_eval_within(&mut env, &mut args("(+ 1 (+ 1 1))"), 2), Ok(num(3)));
    assert_eq!(
        lval_call_within(&mut env, *args("(\\ {x} {+ x 1})"), &mut args("(1)"), 0),
        wrong("Function", "(\\ {x} {+ x 1})")
    );
    let mut f = args("(\\ {x} {+ x 1})");
    let f = lval_eval_within(&mut env, &mut f, 1).unwrap();
    assert_eq!(lval_call_within(&mut env, *f.clone(), &mut args("(1)"), 0), Err(Error::DepthExceeded));
    assert_eq!(lval_call_within(&mut env, *f, &mut args("(1)"), 1), Ok(num(2)));
    assert!(MAX_DEPTH >= 100);
}

#[test]
fn printenv_lists_the_bindings_in_order() {
    let mut env = Lenv::new(None, None);
    env.enter(LEnvLookup::new());
    env.put("b".to_string(), num(2));
    env.put("a".to_string(), args("{1 x}"));
    env.put("ab".to_string(), sym("s"));
    env.put("B".to_string(), num(-1));
    assert_eq!(builtin_printenv(&mut env).unwrap().to_string(), "{B:-1 a:{1 x} ab:s b:2}");
    assert_eq!(
        eval_str(&mut env, "(printenv 0)").unwrap().to_string(),
        "{B:-1 a:{1 x} ab:s b:2}"
    );
    assert_eq!(eval_str(&mut env, "(len (printenv 0))"), Ok(num(4)));
    env.leave();
    let listed = eval_str(&mut env, "(printenv 0)").unwrap();
    assert_eq!(listed.len(), Ok(27));
    assert_eq!(
        eval_str(&mut env, "(head (printenv 0))").unwrap().to_string(),
        "%:<builtin: %>"
    );
}
