use blispr::lval::{clone_cells, num, sym};
use blispr::text::{chars_of, precedes, push_decimal, push_signed_decimal};

#[test]
fn numerals_are_appended() {
    let mut s = String::from("n=");
    push_decimal(&mut s, 0);
    assert_eq!(s, "n=0");
    push_decimal(&mut s, 9);
    push_decimal(&mut s, 10);
    push_decimal(&mut s, 1207);
    assert_eq!(s, "n=09101207");
    let mut t = String::new();
    push_decimal(&mut t, u64::MAX);
    assert_eq!(t, "18446744073709551615");
    let mut u = String::new();
    push_signed_decimal(&mut u, -1);
    push_signed_decimal(&mut u, 0);
    push_signed_decimal(&mut u, 25);
    push_signed_decimal(&mut u, -100);
    assert_eq!(u, "-1025-100");
}

#[test]
fn characters_come_in_order() {
    assert_eq!(chars_of(""), Vec::<char>::new());
    assert_eq!(chars_of("a(b)"), vec!['a', '(', 'b', ')']);
    assert_eq!(chars_of("h\u{e9}\u{4e16}!"), vec!['h', '\u{e9}', '\u{4e16}', '!']);
}

#[test]
fn strings_are_ordered_character_by_character() {
    assert!(precedes("", ""));
    assert!(precedes("", "a"));
    assert!(!precedes("a", ""));
    assert!(precedes("a", "a"));
    assert!(precedes("a", "b"));
    assert!(!precedes("b", "a"));
    assert!(precedes("a", "ab"));
    assert!(!precedes("ab", "a"));
    assert!(precedes("ab", "b"));
    assert!(precedes("Z", "a"));
    assert!(!precedes("a", "Z"));
    assert!(precedes("abc", "abd"));
    assert!(!precedes("abd", "abc"));
    assert!(precedes("z", "\u{e9}"));
    assert!(!precedes("\u{4e16}", "\u{e9}"));
}

#[test]
fn cells_are_copied_one_by_one() {
    let cells = vec![num(1), sym("x"), num(3)];
    let copy = clone_cells(&cells);
    assert_eq!(copy, cells);
    assert_eq!(clone_cells(&Vec::new()), Vec::new());
}
