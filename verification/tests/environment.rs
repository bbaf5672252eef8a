use blispr::error::Error;
use blispr::lenv::Lenv;
use blispr::lookup::LEnvLookup;
use blispr::lval::{builtin, num, sym, LBuiltin};

const NAMES: [(&str, LBuiltin); 27] = [
    ("\\", LBuiltin::Lambda),
    ("def", LBuiltin::PutStub),
    ("=", LBuiltin::PutStub),
    ("cons", LBuiltin::Cons),
    ("eval", LBuiltin::EvalStub),
    ("head", LBuiltin::Head),
    ("init", LBuiltin::Init),
    ("list", LBuiltin::List),
    ("join", LBuiltin::Join),
    ("len", LBuiltin::Len),
    ("tail", LBuiltin::Tail),
    ("exit", LBuiltin::Exit),
    ("printenv", LBuiltin::PrintenvStub),
    ("+", LBuiltin::Add),
    ("add", LBuiltin::Add),
    ("-", LBuiltin::Sub),
    ("sub", LBuiltin::Sub),
    ("*", LBuiltin::Mul),
    ("mul", LBuiltin::Mul),
    ("/", LBuiltin::Div),
    ("div", LBuiltin::Div),
    ("^", LBuiltin::Pow),
    ("pow", LBuiltin::Pow),
    ("%", LBuiltin::Rem),
    ("rem", LBuiltin::Rem),
    ("min", LBuiltin::Min),
    ("max", LBuiltin::Max),
];

#[test]
fn a_root_binds_every_builtin() {
    let env = Lenv::new(None, None);
    for (name, op) in NAMES {
        assert_eq!(env.get(name), Ok(builtin(op, name)));
    }
    assert_eq!(env.lookup.entries().len(), 27);
    assert!(env.parent.is_none());
}

#[test]
fn a_root_keeps_the_bindings_it_was_given() {
    let mut given = LEnvLookup::new();
    given.insert("x".to_string(), num(1));
    given.insert("+".to_string(), num(2));
    let env = Lenv::new(Some(given), None);
    assert_eq!(env.get("x"), Ok(num(1)));
    assert_eq!(env.get("+"), Ok(builtin(LBuiltin::Add, "+")));
    assert_eq!(env.lookup.entries().len(), 28);
}

#[test]
fn an_inner_environment_holds_what_it_was_given() {
    let mut given = LEnvLookup::new();
    given.insert("x".to_string(), num(1));
    let env = Lenv::new(Some(given), Some(Lenv::new(None, None)));
    assert_eq!(env.lookup.entries().len(), 1);
    assert_eq!(env.get("x"), Ok(num(1)));
    assert_eq!(env.get("head"), Ok(builtin(LBuiltin::Head, "head")));
    assert_eq!(env.list_all().unwrap().to_string(), "{x:1}");
    let empty = Lenv::new(None, Some(Lenv::new(None, None)));
    assert_eq!(empty.list_all().unwrap().to_string(), "{}");
}

#[test]
fn get_searches_from_the_inside_out() {
    let mut root = Lenv::new(None, None);
    root.put("x".to_string(), num(1));
    root.put("y".to_string(), num(2));
    let mut inner = Lenv::new(None, Some(root));
    inner.put("x".to_string(), num(10));
    assert_eq!(inner.get("x"), Ok(num(10)));
    assert_eq!(inner.get("y"), Ok(num(2)));
    assert_eq!(inner.get("z"), Err(Error::UnknownFunction("z".to_string())));
    let root = inner.parent.take().unwrap();
    assert_eq!(root.get("x"), Ok(num(1)));
}

#[test]
fn put_overwrites_in_the_scope_itself() {
    let mut env = Lenv::new(None, None);
    env.put("x".to_string(), num(1));
    env.put("x".to_string(), sym("s"));
    assert_eq!(env.get("x"), Ok(sym("s")));
    env.put("head".to_string(), num(0));
    assert_eq!(env.get("head"), Ok(num(0)));
}

#[test]
fn def_writes_to_the_root() {
    let root = Lenv::new(None, None);
    let middle = Lenv::new(None, Some(root));
    let mut inner = Lenv::new(None, Some(middle));
    inner.def("x".to_string(), num(7));
    assert_eq!(inner.get("x"), Ok(num(7)));
    assert_eq!(inner.list_all().unwrap().to_string(), "{}");
    let middle = inner.parent.take().unwrap();
    assert_eq!(middle.list_all().unwrap().to_string(), "{}");
    let root = middle.parent.unwrap();
    assert_eq!(root.get("x"), Ok(num(7)));
    let mut alone = Lenv::new(None, None);
    alone.def("y".to_string(), num(8));
    assert_eq!(alone.get("y"), Ok(num(8)));
}

#[test]
fn entering_and_leaving_a_scope() {
    let mut env = Lenv::new(None, None);
    env.put("x".to_string(), num(1));
    let mut local = LEnvLookup::new();
    local.insert("x".to_string(), num(2));
    local.insert("y".to_string(), num(3));
    env.enter(local);
    assert_eq!(env.get("x"), Ok(num(2)));
    assert_eq!(env.get("y"), Ok(num(3)));
    assert_eq!(env.get("tail"), Ok(builtin(LBuiltin::Tail, "tail")));
    env.def("z".to_string(), num(4));
    env.leave();
    assert_eq!(env.get("x"), Ok(num(1)));
    assert_eq!(env.get("y"), Err(Error::UnknownFunction("y".to_string())));
    assert_eq!(env.get("z"), Ok(num(4)));
    assert!(env.parent.is_none());
    env.leave();
    assert_eq!(env.get("x"), Ok(num(1)));
}

#[test]
fn list_all_orders_by_name() {
    let mut env = Lenv::new(None, Some(Lenv::new(None, None)));
    for name in ["pear", "apple", "fig", "Zebra", "a", "", "apples", "-", "9"] {
        env.put(name.to_string(), num(name.len() as i64));
    }
    assert_eq!(
        env.list_all().unwrap().to_string(),
        "{:0 -:1 9:1 Zebra:5 a:1 apple:5 apples:6 fig:3 pear:4}"
    );
}
