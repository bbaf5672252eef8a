use blispr::error::Error;
use blispr::lenv::Lenv;
use blispr::lval::num;
use blispr::run::{print_eval_result, prompt, repl, run_file, Input, Opt, Output, Step};

#[test]
fn the_prompt_is_fixed() {
    assert_eq!(prompt(), "blispr> ");
}

#[test]
fn options_hold_what_was_asked() {
    let opt = Opt { debug: true, input: Some("program.blispr".to_string()) };
    assert!(opt.debug);
    assert_eq!(opt.input.as_deref(), Some("program.blispr"));
}

#[test]
fn a_result_is_shown_as_it_prints() {
    assert_eq!(print_eval_result(&Ok(num(3))), Output::Plain("3".to_string()));
    assert_eq!(
        print_eval_result(&Err(Error::DivideByZero)),
        Output::Complaint("Error: Divide by zero".to_string())
    );
    assert_eq!(
        print_eval_result(&Err(Error::NumArguments(2, 1))),
        Output::Complaint("Error: Wrong number of arguments: expected 2, received 1".to_string())
    );
}

#[test]
fn the_session_goes_on_after_an_error() {
    let mut env = Lenv::new(None, None);
    assert_eq!(
        repl(&mut env, Input::Line("(def {x} 4)".to_string())),
        Step::Show(Output::Plain("()".to_string()))
    );
    assert_eq!(
        repl(&mut env, Input::Line("(/ x 0)".to_string())),
        Step::Show(Output::Complaint("Error: Divide by zero".to_string()))
    );
    assert_eq!(
        repl(&mut env, Input::Line("(+ x".to_string())),
        Step::Show(Output::Complaint("Error: Parse error: a bracket is not closed".to_string()))
    );
    assert_eq!(
        repl(&mut env, Input::Line("(* x x)".to_string())),
        Step::Show(Output::Plain("16".to_string()))
    );
    assert_eq!(
        repl(&mut env, Input::Line("".to_string())),
        Step::Show(Output::Plain("<toplevel>".to_string()))
    );
}

#[test]
fn the_session_ends_when_asked_or_when_input_ends() {
    let mut env = Lenv::new(None, None);
    assert_eq!(
        repl(&mut env, Input::Line("(exit 0)".to_string())),
        Step::Farewell(Output::Plain("Goodbye!".to_string()))
    );
    assert_eq!(repl(&mut env, Input::Interrupted), Step::Leave);
    assert_eq!(repl(&mut env, Input::Eof), Step::Leave);
    assert_eq!(repl(&mut env, Input::Failed), Step::Leave);
}

#[test]
fn a_file_ends_with_its_result_and_code() {
    let mut env = Lenv::new(None, None);
    let finish = run_file(&mut env, "(def {x} 300)\n(+ x 11) ; the result\n");
    assert_eq!(finish.shown, Output::Plain("311".to_string()));
    assert_eq!(finish.code, 0);
    let finish = run_file(&mut env, "(head {})");
    assert_eq!(finish.shown, Output::Complaint("Error: Empty list".to_string()));
    assert_eq!(finish.code, 1);
    let finish = run_file(&mut env, "(+ 1 2))");
    assert_eq!(
        finish.shown,
        Output::Complaint("Error: Parse error: a closing bracket does not match".to_string())
    );
    assert_eq!(finish.code, 1);
    let finish = run_file(&mut env, "(def {y} 1) (exit 0) (def {y} 2)");
    assert_eq!(finish.shown, Output::Plain("Goodbye!".to_string()));
    assert_eq!(finish.code, 0);
    assert_eq!(env.get("y"), Ok(num(1)));
}
