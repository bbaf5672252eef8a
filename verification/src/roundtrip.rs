use crate::error::Failure;
use crate::lval::{print_cells, Value};
use crate::parse::{
    all_digits, atom_end, atom_of, digit_value, digits_value, is_atom_char, is_blank,
    is_number_text, number_value, parse_form, parse_forms, parse_of, skip_blanks, Parsed,
    ParsedForm,
};
use crate::text::{decimal, digit_char, signed_decimal};
use vstd::prelude::*;

verus! {

/// Whether `t` can be the name of a symbol that is read: it is not empty, holds only
/// characters that may stand in an atom, and does not write a number.
pub open spec fn symbol_text(t: Seq<char>) -> bool {
    &&& t.len() > 0
    &&& forall|i: int| 0 <= i < t.len() ==> is_atom_char(#[trigger] t[i])
    &&& !is_number_text(t)
}

/// Whether `v` is a value that reading can give: a number, a symbol with a name that can be
/// read, or a list of such values.
pub open spec fn readable(v: Value) -> bool
    decreases v,
{
    match v {
        Value::Num(_) => true,
        Value::Sym(t) => symbol_text(t),
        Value::Sexpr(cs) => forall|i: int| 0 <= i < cs.len() ==> readable(#[trigger] cs[i]),
        Value::Qexpr(cs) => forall|i: int| 0 <= i < cs.len() ==> readable(#[trigger] cs[i]),
        _ => false,
    }
}

/// Whether `c` can follow an atom without becoming part of it.
pub open spec fn ends_atom(c: char) -> bool {
    c == ' ' || c == ')' || c == '}'
}

/// What no atom holds: blanks, brackets and the mark that starts a comment.
proof fn lemma_atom_chars(c: char)
    requires
        is_atom_char(c),
    ensures
        !is_blank(c),
        c != '(',
        c != ')',
        c != '{',
        c != '}',
        c != ';',
{
}

/// The numeral of a number holds digits only, and at least one.
proof fn lemma_decimal_digits(n: nat)
    ensures
        decimal(n).len() >= 1,
        all_digits(decimal(n)),
        digits_value(decimal(n)) == n,
    decreases n,
{
    if n >= 10 {
        lemma_decimal_digits(n / 10);
        let front = decimal(n / 10);
        let last = digit_char((n % 10) as int);
        assert(decimal(n) == front.push(last));
        assert(decimal(n).drop_last() =~= front);
        assert(decimal(n).last() == last);
        assert forall|i: int| 0 <= i < decimal(n).len() implies digit_value(
            #[trigger] decimal(n)[i],
        ) is Some by {
            if i < front.len() {
                assert(decimal(n)[i] == front[i]);
            }
        }
        assert(digit_value(last) == Some((n % 10) as nat));
        assert(digits_value(decimal(n)) == digits_value(front) * 10 + (n % 10));
    } else {
        assert(decimal(n).drop_last() =~= Seq::<char>::empty());
        assert(digits_value(decimal(n).drop_last()) == 0);
        assert(decimal(n).last() == digit_char(n as int));
        assert(digit_value(digit_char(n as int)) == Some(n));
    }
}

/// The printed form of a number writes that number.
proof fn lemma_number_text(n: i64)
    ensures
        signed_decimal(n as int).len() >= 1,
        is_number_text(signed_decimal(n as int)),
        number_value(signed_decimal(n as int)) == Some(n),
        forall|i: int|
            0 <= i < signed_decimal(n as int).len() ==> is_atom_char(
                #[trigger] signed_decimal(n as int)[i],
            ),
{
    let t = signed_decimal(n as int);
    if n < 0 {
        let m = (-n) as nat;
        lemma_decimal_digits(m);
        assert(t.drop_first() =~= decimal(m));
        assert(t[0] == '-');
        assert forall|i: int| 0 <= i < t.len() implies is_atom_char(#[trigger] t[i]) by {
            if i > 0 {
                assert(t[i] == decimal(m)[i - 1]);
            }
        }
    } else {
        lemma_decimal_digits(n as nat);
        assert(digit_value(t[0]) is Some);
    }
}

/// An atom ends where its text ends, when what follows cannot stand in an atom.
proof fn lemma_atom_end(s: Seq<char>, i: int, k: int)
    requires
        0 <= i <= k <= s.len(),
        forall|x: int| i <= x < k ==> is_atom_char(#[trigger] s[x]),
        k < s.len() ==> !is_atom_char(s[k]),
    ensures
        atom_end(s, i) == k,
    decreases k - i,
{
    if i < k {
        lemma_atom_end(s, i + 1, k);
    }
}

/// The printed form of a value that can be read is not empty, and starts with a character
/// that starts a form.
proof fn lemma_print_starts(v: Value)
    requires
        readable(v),
    ensures
        v.print().len() >= 1,
        v.print()[0] == '(' || v.print()[0] == '{' || is_atom_char(v.print()[0]),
{
    match v {
        Value::Num(n) => {
            lemma_number_text(n);
        },
        _ => {},
    }
}

/// The printed forms of a list, taken from the front: the first, and after a space the rest.
proof fn lemma_print_cells_front(cs: Seq<Value>)
    requires
        cs.len() >= 2,
    ensures
        print_cells(cs) == cs[0].print() + seq![' '] + print_cells(cs.drop_first()),
    decreases cs.len(),
{
    let rest = cs.drop_first();
    if cs.len() == 2 {
        assert(cs.drop_last() =~= seq![cs[0]]);
        assert(rest =~= seq![cs[1]]);
        assert(print_cells(cs.drop_last()) == cs[0].print());
        assert(print_cells(rest) == cs[1].print());
    } else {
        lemma_print_cells_front(cs.drop_last());
        assert(cs.drop_last().drop_first() =~= rest.drop_last());
        assert(cs.drop_last()[0] == cs[0]);
        assert(rest.last() == cs.last());
        assert(print_cells(cs) =~= cs[0].print() + seq![' '] + print_cells(rest));
    }
}

/// Reading finds a value that can be read where its printed form stands, when what follows
/// ends an atom.
proof fn lemma_read_form(s: Seq<char>, i: int, v: Value)
    requires
        readable(v),
        0 <= i,
        i + v.print().len() <= s.len(),
        s.subrange(i, i + v.print().len()) == v.print(),
        i + v.print().len() < s.len() ==> ends_atom(s[i + v.print().len()]),
    ensures
        parse_form(s, i) == Ok::<ParsedForm, Failure>(
            ParsedForm { form: v, next: i + v.print().len() },
        ),
    decreases v,
{
    let p = v.print();
    let k = i + p.len();
    lemma_print_starts(v);
    assert(s[i] == p[0]);
    assert forall|x: int| i <= x < k implies s[x] == p[x - i] by {
        assert(s.subrange(i, k)[x - i] == s[x]);
    }
    match v {
        Value::Num(n) => {
            lemma_number_text(n);
            lemma_atom_chars(p[0]);
            lemma_atom_end(s, i, k);
        },
        Value::Sym(t) => {
            lemma_atom_chars(p[0]);
            lemma_atom_end(s, i, k);
        },
        Value::Sexpr(cs) => {
            let q = print_cells(cs);
            assert(p =~= seq!['('] + q + seq![')']);
            assert(s.subrange(i + 1, i + 1 + q.len()) =~= q);
            assert(s[i + 1 + q.len()] == p[1 + q.len() as int]);
            lemma_read_cells(s, i + 1, cs, ')');
        },
        Value::Qexpr(cs) => {
            let q = print_cells(cs);
            assert(p =~= seq!['{'] + q + seq!['}']);
            assert(s.subrange(i + 1, i + 1 + q.len()) =~= q);
            assert(s[i + 1 + q.len()] == p[1 + q.len() as int]);
            lemma_read_cells(s, i + 1, cs, '}');
        },
        _ => {},
    }
}

/// Reading finds the values of a list where their printed forms stand before the bracket
/// that closes the list.
proof fn lemma_read_cells(s: Seq<char>, i: int, cs: Seq<Value>, closer: char)
    requires
        forall|x: int| 0 <= x < cs.len() ==> readable(#[trigger] cs[x]),
        closer == ')' || closer == '}',
        0 <= i,
        i + print_cells(cs).len() < s.len(),
        s.subrange(i, i + print_cells(cs).len()) == print_cells(cs),
        s[i + print_cells(cs).len()] == closer,
    ensures
        parse_forms(s, i, Some(closer)) == Ok::<Parsed, Failure>(
            Parsed { forms: cs, next: i + print_cells(cs).len() + 1 },
        ),
    decreases cs,
{
    let q = print_cells(cs);
    if cs.len() == 0 {
        assert(skip_blanks(s, i) == i);
        assert(cs =~= Seq::<Value>::empty());
    } else {
        let first = cs[0];
        let p = first.print();
        let rest = cs.drop_first();
        assert(readable(first));
        lemma_print_starts(first);
        if cs.len() >= 2 {
            lemma_print_cells_front(cs);
        }
        assert(q =~= p + (if cs.len() >= 2 {
            seq![' '] + print_cells(rest)
        } else {
            Seq::<char>::empty()
        }));
        assert(s[i] == q[0]) by {
            assert(s.subrange(i, i + q.len())[0] == s[i]);
        }
        assert(s[i] == p[0]);
        if is_atom_char(p[0]) {
            lemma_atom_chars(p[0]);
        }
        assert(skip_blanks(s, i) == i);
        let k = i + p.len();
        assert(s.subrange(i, k) =~= p) by {
            assert forall|x: int| 0 <= x < p.len() implies s.subrange(i, k)[x] == p[x] by {
                assert(s.subrange(i, i + q.len())[x] == s[i + x]);
                assert(q[x] == p[x]);
            }
        }
        assert forall|x: int| 0 <= x < rest.len() implies readable(#[trigger] rest[x]) by {
            assert(rest[x] == cs[x + 1]);
        }
        if cs.len() >= 2 {
            let tail = print_cells(rest);
            assert(s[k] == ' ') by {
                assert(s.subrange(i, i + q.len())[p.len() as int] == s[k]);
                assert(q[p.len() as int] == ' ');
            }
            lemma_read_form(s, i, first);
            assert(s.subrange(k + 1, k + 1 + tail.len()) =~= tail) by {
                assert forall|x: int| 0 <= x < tail.len() implies s.subrange(
                    k + 1,
                    k + 1 + tail.len(),
                )[x] == tail[x] by {
                    assert(s.subrange(i, i + q.len())[p.len() + 1 + x] == s[k + 1 + x]);
                    assert(q[p.len() + 1 + x] == tail[x]);
                }
            }
            lemma_read_cells(s, k + 1, rest, closer);
            assert(skip_blanks(s, k) == skip_blanks(s, k + 1));
            assert(parse_forms(s, k, Some(closer)) == parse_forms(s, k + 1, Some(closer)));
            assert(seq![first] + rest =~= cs);
        } else {
            assert(q =~= p);
            lemma_read_form(s, i, first);
            assert(rest =~= Seq::<Value>::empty());
            assert(skip_blanks(s, k) == k);
            assert(seq![first] + Seq::<Value>::empty() =~= cs);
        }
    }
}

/// Reading the printed form of a value that can be read gives a program with that value as
/// its one form: it prints as the value did.
pub proof fn lemma_print_then_parse(v: Value)
    requires
        readable(v),
    ensures
        parse_of(v.print()) == Ok::<Value, Failure>(Value::Blispr(seq![v])),
        print_cells(seq![v]) == v.print(),
{
    let s = v.print();
    lemma_print_starts(v);
    if is_atom_char(s[0]) {
        lemma_atom_chars(s[0]);
    }
    assert(skip_blanks(s, 0) == 0);
    assert(s.subrange(0, s.len() as int) =~= s);
    lemma_read_form(s, 0, v);
    assert(skip_blanks(s, s.len() as int) == s.len());
    assert(parse_forms(s, s.len() as int, None) == Ok::<Parsed, Failure>(
        Parsed { forms: Seq::empty(), next: s.len() as int },
    ));
    assert(seq![v] + Seq::<Value>::empty() =~= seq![v]);
    assert(parse_forms(s, 0, None) == Ok::<Parsed, Failure>(
        Parsed { forms: seq![v], next: s.len() as int },
    ));
}

/// The list that the printed form of a function reads as: the mark of a function, then the
/// parameters and the body.
pub open spec fn lambda_form(formals: Value, body: Value) -> Value {
    Value::Sexpr(seq![Value::Sym(seq!['\\']), formals, body])
}

/// Reading the printed form of a function, with parameters and a body that can be read, gives
/// a program with one form, a list that prints as the function did.
pub proof fn lemma_print_then_parse_lambda(
    captures: Map<Seq<char>, Value>,
    formals: Value,
    body: Value,
)
    requires
        readable(formals),
        readable(body),
    ensures
        parse_of(Value::Lambda(captures, Box::new(formals), Box::new(body)).print()) == Ok::<
            Value,
            Failure,
        >(Value::Blispr(seq![lambda_form(formals, body)])),
        lambda_form(formals, body).print() == Value::Lambda(
            captures,
            Box::new(formals),
            Box::new(body),
        ).print(),
{
    let mark = Value::Sym(seq!['\\']);
    let form = lambda_form(formals, body);
    let cells = seq![mark, formals, body];
    assert(!is_number_text(seq!['\\'])) by {
        assert(digit_value(seq!['\\'][0]) is None);
    }
    assert(readable(mark));
    assert(readable(form));
    assert(cells.drop_last() =~= seq![mark, formals]);
    assert(cells.drop_last().drop_last() =~= seq![mark]);
    assert(mark.print() == seq!['\\']);
    assert(seq![mark][0] == mark);
    assert(print_cells(seq![mark]) == mark.print());
    assert(seq![mark, formals].last() == formals);
    assert(print_cells(seq![mark, formals]) == seq!['\\'] + seq![' '] + formals.print());
    assert(cells.last() == body);
    assert(print_cells(cells) == print_cells(seq![mark, formals]) + seq![' '] + body.print());
    assert(form.print() == seq!['('] + print_cells(cells) + seq![')']);
    assert(form.print() =~= Value::Lambda(captures, Box::new(formals), Box::new(body)).print());
    lemma_print_then_parse(form);
}

} // verus!
