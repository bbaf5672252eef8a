use blispr::error::Error;
use blispr::lookup::LEnvLookup;
use blispr::lval::{blispr, builtin, join, lambda, num, pop, qexpr, sexpr, sym, LBuiltin, Lval};
use blispr::parse::BlisprParser;

fn list_of(items: &[i64]) -> Box<Lval> {
    let mut q = qexpr();
    for n in items {
        blispr::lval::add(&mut q, &num(*n)).unwrap();
    }
    q
}

#[test]
fn constructors_start_empty() {
    assert_eq!(*sexpr(), Lval::Sexpr(vec![]));
    assert_eq!(*qexpr(), Lval::Qexpr(vec![]));
    assert_eq!(*blispr(), Lval::Blispr(vec![]));
    assert_eq!(*num(-7), Lval::Num(-7));
    assert_eq!(*sym("abc"), Lval::Sym("abc".to_string()));
}

#[test]
fn add_appends_to_each_container() {
    let mut s = sexpr();
    blispr::lval::add(&mut s, &num(1)).unwrap();
    blispr::lval::add(&mut s, &sym("x")).unwrap();
    assert_eq!(
        *s,
        Lval::Sexpr(vec![Box::new(Lval::Num(1)), Box::new(Lval::Sym("x".to_string()))])
    );
    let mut p = blispr();
    blispr::lval::add(&mut p, &num(2)).unwrap();
    assert_eq!(*p, Lval::Blispr(vec![Box::new(Lval::Num(2))]));
    assert_eq!(*list_of(&[4, 5]), Lval::Qexpr(vec![Box::new(Lval::Num(4)), Box::new(Lval::Num(5))]));
}

#[test]
fn add_to_an_atom_is_no_children() {
    let mut n = num(1);
    assert_eq!(blispr::lval::add(&mut n, &num(2)), Err(Error::NoChildren));
    assert_eq!(*n, Lval::Num(1));
    let mut s = sym("x");
    assert_eq!(blispr::lval::add(&mut s, &num(2)), Err(Error::NoChildren));
}

#[test]
fn pop_takes_the_cell_out() {
    let mut q = list_of(&[10, 20, 30]);
    assert_eq!(pop(&mut q, 1), Ok(num(20)));
    assert_eq!(*q, *list_of(&[10, 30]));
    assert_eq!(pop(&mut q, 0), Ok(num(10)));
    assert_eq!(pop(&mut q, 0), Ok(num(30)));
    assert_eq!(*q, Lval::Qexpr(vec![]));
}

#[test]
fn pop_from_an_atom_is_no_children() {
    let mut n = num(1);
    assert_eq!(pop(&mut n, 0), Err(Error::NoChildren));
}

#[test]
fn join_moves_every_cell_in_order() {
    let mut x = list_of(&[1, 2]);
    assert_eq!(join(&mut x, list_of(&[3, 4, 5])), Ok(()));
    assert_eq!(*x, *list_of(&[1, 2, 3, 4, 5]));
    assert_eq!(join(&mut x, qexpr()), Ok(()));
    assert_eq!(*x, *list_of(&[1, 2, 3, 4, 5]));
}

#[test]
fn join_with_an_atom_is_no_children() {
    let mut x = list_of(&[1]);
    assert_eq!(join(&mut x, num(3)), Err(Error::NoChildren));
    assert_eq!(*x, *list_of(&[1]));
    let mut n = num(1);
    assert_eq!(join(&mut n, list_of(&[3])), Err(Error::NoChildren));
    assert_eq!(join(&mut n, qexpr()), Err(Error::NoChildren));
}

#[test]
fn accessors_give_the_payload() {
    assert_eq!(num(42).as_num(), Ok(42));
    assert_eq!(sym("x").as_num(), Err(Error::NotANumber));
    assert_eq!(sym("name").as_string(), Ok("name".to_string()));
    assert_eq!(
        num(3).as_string(),
        Err(Error::WrongType("symbol".to_string(), "3".to_string()))
    );
    assert_eq!(list_of(&[1, 2, 3]).len(), Ok(3));
    assert_eq!(sexpr().len(), Ok(0));
    assert_eq!(num(3).len(), Err(Error::NoChildren));
    assert_eq!(builtin(LBuiltin::Add, "+").len(), Err(Error::NoChildren));
}

#[test]
fn printing_follows_each_kind() {
    assert_eq!(num(0).to_string(), "0");
    assert_eq!(num(7).to_string(), "7");
    assert_eq!(num(-12).to_string(), "-12");
    assert_eq!(num(1234567890).to_string(), "1234567890");
    assert_eq!(num(i64::MAX).to_string(), "9223372036854775807");
    assert_eq!(num(i64::MIN).to_string(), "-9223372036854775808");
    assert_eq!(sym("func-2").to_string(), "func-2");
    assert_eq!(sexpr().to_string(), "()");
    assert_eq!(qexpr().to_string(), "{}");
    assert_eq!(list_of(&[1]).to_string(), "{1}");
    assert_eq!(list_of(&[1, 2, 3]).to_string(), "{1 2 3}");
    assert_eq!(blispr().to_string(), "<toplevel>");
    assert_eq!(builtin(LBuiltin::Head, "head").to_string(), "<builtin: head>");
    let mut formals = qexpr();
    blispr::lval::add(&mut formals, &sym("x")).unwrap();
    blispr::lval::add(&mut formals, &sym("y")).unwrap();
    let mut body = qexpr();
    blispr::lval::add(&mut body, &sym("+")).unwrap();
    blispr::lval::add(&mut body, &sym("x")).unwrap();
    blispr::lval::add(&mut body, &sym("y")).unwrap();
    assert_eq!(
        lambda(LEnvLookup::new(), formals, body).to_string(),
        "(\\ {x y} {+ x y})"
    );
}

#[test]
fn nested_lists_print_with_single_spaces() {
    let mut inner = sexpr();
    blispr::lval::add(&mut inner, &sym("*")).unwrap();
    blispr::lval::add(&mut inner, &num(2)).unwrap();
    blispr::lval::add(&mut inner, &list_of(&[])).unwrap();
    let mut outer = sexpr();
    blispr::lval::add(&mut outer, &sym("+")).unwrap();
    blispr::lval::add(&mut outer, &inner).unwrap();
    blispr::lval::add(&mut outer, &num(-1)).unwrap();
    assert_eq!(outer.to_string(), "(+ (* 2 {}) -1)");
}

#[test]
fn a_copy_equals_what_it_was_made_from() {
    let mut captures = LEnvLookup::new();
    captures.insert("x".to_string(), num(2));
    let f = lambda(captures, list_of(&[]), list_of(&[1]));
    let copy = f.clone();
    assert_eq!(copy, f);
    let mut other = LEnvLookup::new();
    other.insert("x".to_string(), num(3));
    assert_ne!(*lambda(other, list_of(&[]), list_of(&[1])), *f);
}

#[test]
fn builtins_are_equal_by_name_and_operation() {
    assert_eq!(builtin(LBuiltin::Add, "+"), builtin(LBuiltin::Add, "+"));
    assert_ne!(builtin(LBuiltin::Add, "+"), builtin(LBuiltin::Add, "add"));
}

#[test]
fn lookup_table_binds_and_finds() {
    let mut m = LEnvLookup::new();
    assert!(m.get("x").is_none());
    assert!(m.entries().is_empty());
    m.insert("x".to_string(), num(1));
    m.insert("y".to_string(), num(2));
    m.insert("x".to_string(), num(3));
    assert_eq!(m.get("x"), Some(&num(3)));
    assert_eq!(m.get("y"), Some(&num(2)));
    assert!(m.get("z").is_none());
    let entries = m.entries();
    assert_eq!(entries.len(), 2);
    assert!(entries.contains(&(&"x".to_string(), &num(3))));
    assert!(entries.contains(&(&"y".to_string(), &num(2))));
}

#[test]
fn lookup_table_extend_prefers_the_new_binding() {
    let mut m = LEnvLookup::new();
    m.insert("x".to_string(), num(1));
    m.insert("y".to_string(), num(2));
    let mut other = LEnvLookup::new();
    other.insert("y".to_string(), num(20));
    other.insert("z".to_string(), num(30));
    m.extend(other);
    assert_eq!(m.get("x"), Some(&num(1)));
    assert_eq!(m.get("y"), Some(&num(20)));
    assert_eq!(m.get("z"), Some(&num(30)));
    assert_eq!(m.entries().len(), 3);
}

#[test]
fn lookup_table_copy_is_its_own() {
    let mut m = LEnvLookup::new();
    m.insert("x".to_string(), num(1));
    let mut copy = m.clone();
    copy.insert("x".to_string(), num(2));
    assert_eq!(m.get("x"), Some(&num(1)));
    assert_eq!(copy.get("x"), Some(&num(2)));
}

#[test]
fn reading_back_what_was_printed_gives_the_value() {
    let mut inner = list_of(&[1, -2, 3]);
    blispr::lval::add(&mut inner, &sym("a-b")).unwrap();
    let mut v = sexpr();
    blispr::lval::add(&mut v, &sym("+")).unwrap();
    blispr::lval::add(&mut v, &inner).unwrap();
    blispr::lval::add(&mut v, &sexpr()).unwrap();
    blispr::lval::add(&mut v, &num(i64::MIN)).unwrap();
    let printed = v.to_string();
    assert_eq!(printed, "(+ {1 -2 3 a-b} () -9223372036854775808)");
    let program = BlisprParser::parse(&printed).unwrap();
    assert_eq!(*program, Lval::Blispr(vec![v.clone()]));
    match &*program {
        Lval::Blispr(forms) => assert_eq!(forms[0].to_string(), printed),
        _ => panic!("a program was expected"),
    }
}

#[test]
fn a_printed_function_reads_back_as_a_list_that_prints_alike() {
    let mut formals = qexpr();
    blispr::lval::add(&mut formals, &sym("x")).unwrap();
    let f = lambda(LEnvLookup::new(), formals, list_of(&[1]));
    let printed = f.to_string();
    assert_eq!(printed, "(\\ {x} {1})");
    let program = BlisprParser::parse(&printed).unwrap();
    match &*program {
        Lval::Blispr(forms) => {
            assert_eq!(forms.len(), 1);
            assert_eq!(forms[0].to_string(), printed);
        }
        _ => panic!("a program was expected"),
    }
}

#[test]
fn values_are_equal_when_they_stand_for_the_same() {
    assert_eq!(num(1), num(1));
    assert_ne!(num(1), num(2));
    assert_ne!(*num(1), *sym("1"));
    assert_eq!(sym("x"), sym("x"));
    assert_ne!(sym("x"), sym("y"));
    assert_eq!(list_of(&[1, 2]), list_of(&[1, 2]));
    assert_ne!(list_of(&[1, 2]), list_of(&[2, 1]));
    assert_ne!(list_of(&[1, 2]), list_of(&[1, 2, 3]));
    assert_ne!(list_of(&[1, 2, 3]), list_of(&[1, 2]));
    assert_ne!(*qexpr(), *sexpr());
    assert_ne!(*sexpr(), *blispr());
    assert_eq!(*blispr(), *blispr());
    let mut a = sexpr();
    blispr::lval::add(&mut a, &list_of(&[1])).unwrap();
    let mut b = sexpr();
    blispr::lval::add(&mut b, &list_of(&[2])).unwrap();
    assert_ne!(a, b);
    assert_ne!(*builtin(LBuiltin::Add, "+"), *builtin(LBuiltin::Sub, "+"));
    assert_ne!(*builtin(LBuiltin::Add, "+"), *list_of(&[]));
}

#[test]
fn functions_are_equal_by_bindings_parameters_and_body() {
    let make = |bound: &[(&str, i64)], formals: &[i64], body: &[i64]| {
        let mut m = LEnvLookup::new();
        for (k, v) in bound {
            m.insert(k.to_string(), num(*v));
        }
        lambda(m, list_of(formals), list_of(body))
    };
    assert_eq!(make(&[("x", 1), ("y", 2)], &[1], &[2]), make(&[("y", 2), ("x", 1)], &[1], &[2]));
    assert_ne!(make(&[("x", 1)], &[1], &[2]), make(&[("x", 1), ("y", 2)], &[1], &[2]));
    assert_ne!(make(&[("x", 1), ("y", 2)], &[1], &[2]), make(&[("x", 1)], &[1], &[2]));
    assert_ne!(make(&[("x", 1)], &[1], &[2]), make(&[("y", 1)], &[1], &[2]));
    assert_ne!(make(&[("x", 1)], &[1], &[2]), make(&[("x", 2)], &[1], &[2]));
    assert_ne!(make(&[], &[1], &[2]), make(&[], &[3], &[2]));
    assert_ne!(make(&[], &[1], &[2]), make(&[], &[1], &[3]));
    assert_ne!(*make(&[], &[1], &[2]), *builtin(LBuiltin::Add, "+"));
}
