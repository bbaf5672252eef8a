use blispr::error::Error;

#[test]
fn each_error_has_its_message() {
    assert_eq!(Error::DivideByZero.to_string(), "Divide by zero");
    assert_eq!(Error::EmptyList.to_string(), "Empty list");
    assert_eq!(
        Error::FunctionFormat.to_string(),
        "Function format invalid.  Symbol '&' not followed by a single symbol"
    );
    assert_eq!(Error::NoChildren.to_string(), "Lval has no children");
    assert_eq!(Error::NotANumber.to_string(), "NaN");
    assert_eq!(
        Error::NumArguments(2, 1).to_string(),
        "Wrong number of arguments: expected 2, received 1"
    );
    assert_eq!(
        Error::NumArguments(10, 123).to_string(),
        "Wrong number of arguments: expected 10, received 123"
    );
    assert_eq!(Error::Parse("oops".to_string()).to_string(), "Parse error: oops");
    assert_eq!(
        Error::Readline("gone".to_string()).to_string(),
        "Readline error: gone"
    );
    assert_eq!(
        Error::WrongType("qexpr".to_string(), "5".to_string()).to_string(),
        "Wrong type: expected qexpr, received 5"
    );
    assert_eq!(
        Error::UnknownFunction("foo".to_string()).to_string(),
        "Unknown function foo"
    );
    assert_eq!(Error::DepthExceeded.to_string(), "Evaluation nested too deeply");
    assert_eq!(Error::Exit.to_string(), "Exit requested");
}
