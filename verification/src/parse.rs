use crate::error::{outcome_of, BlisprResult, Error, Failure};
use crate::eval::{lval_eval, MAX_DEPTH};
use crate::lenv::Lenv;
use crate::lval::{cells_of, lemma_cells_of, Lval, Value};
use crate::semantics::{eval_of, Outcome, Scopes};
use crate::text::{chars_of, push_char};
use vstd::prelude::*;
use vstd::string::*;

verus! {

/// Whether `c` separates forms without being one.
pub open spec fn is_blank(c: char) -> bool {
    c == ' ' || c == '\t' || c == '\n' || c == '\r'
}

/// The value of the digit `c`; `None` for any other character.
pub open spec fn digit_value(c: char) -> Option<nat> {
    if c == '0' {
        Some(0)
    } else if c == '1' {
        Some(1)
    } else if c == '2' {
        Some(2)
    } else if c == '3' {
        Some(3)
    } else if c == '4' {
        Some(4)
    } else if c == '5' {
        Some(5)
    } else if c == '6' {
        Some(6)
    } else if c == '7' {
        Some(7)
    } else if c == '8' {
        Some(8)
    } else if c == '9' {
        Some(9)
    } else {
        None
    }
}

/// Whether `c` is a letter of the Latin alphabet.
pub open spec fn is_letter(c: char) -> bool {
    ('a' as u32 <= c as u32 && c as u32 <= 'z' as u32) || ('A' as u32 <= c as u32 && c as u32
        <= 'Z' as u32)
}

/// Whether `c` is one of the punctuation marks that a symbol may hold.
pub open spec fn is_symbol_mark(c: char) -> bool {
    c == '+' || c == '-' || c == '*' || c == '/' || c == '%' || c == '^' || c == '=' || c == '<'
        || c == '>' || c == '&' || c == '\\' || c == '_' || c == '?' || c == '!' || c == ':'
}

/// Whether `c` may stand in a number or a symbol.
pub open spec fn is_atom_char(c: char) -> bool {
    is_letter(c) || digit_value(c) is Some || is_symbol_mark(c)
}

/// Whether every character of `t` is a digit.
pub open spec fn all_digits(t: Seq<char>) -> bool {
    forall|i: int| 0 <= i < t.len() ==> digit_value(#[trigger] t[i]) is Some
}

/// Whether `t` writes a number: an optional `-`, then one digit or more.
pub open spec fn is_number_text(t: Seq<char>) -> bool {
    if t.len() > 0 && t[0] == '-' {
        t.len() >= 2 && all_digits(t.drop_first())
    } else {
        t.len() >= 1 && all_digits(t)
    }
}

/// The number that the digits `ds` write.
pub open spec fn digits_value(ds: Seq<char>) -> nat
    decreases ds.len(),
{
    if ds.len() == 0 {
        0
    } else {
        digits_value(ds.drop_last()) * 10 + match digit_value(ds.last()) {
            Some(d) => d,
            None => 0,
        }
    }
}

/// The number that `t` writes, where it fits in 64 bits with a sign.
pub open spec fn number_value(t: Seq<char>) -> Option<i64> {
    if t.len() > 0 && t[0] == '-' {
        let magnitude = digits_value(t.drop_first());
        if magnitude <= 0x8000_0000_0000_0000 {
            Some((-magnitude) as i64)
        } else {
            None
        }
    } else {
        let magnitude = digits_value(t);
        if magnitude <= 0x7fff_ffff_ffff_ffff {
            Some(magnitude as i64)
        } else {
            None
        }
    }
}

/// The index of the first character from `i` on that follows a line break; the length of `s`
/// where there is none.
pub open spec fn line_end(s: Seq<char>, i: int) -> int
    decreases s.len() - i,
{
    if i < 0 || i >= s.len() {
        s.len() as int
    } else if s[i] == '\n' {
        i + 1
    } else {
        line_end(s, i + 1)
    }
}

/// The index of the first character from `i` on that is neither blank nor in a comment; the
/// length of `s` where there is none. A comment runs from a `;` to the end of its line.
pub open spec fn skip_blanks(s: Seq<char>, i: int) -> int
    decreases s.len() - i,
{
    if i < 0 || i >= s.len() {
        s.len() as int
    } else if is_blank(s[i]) {
        skip_blanks(s, i + 1)
    } else if s[i] == ';' {
        let j = line_end(s, i + 1);
        if i < j <= s.len() {
            skip_blanks(s, j)
        } else {
            s.len() as int
        }
    } else {
        i
    }
}

/// The index of the first character from `i` on that cannot stand in an atom.
pub open spec fn atom_end(s: Seq<char>, i: int) -> int
    decreases s.len() - i,
{
    if i < 0 || i >= s.len() {
        s.len() as int
    } else if is_atom_char(s[i]) {
        atom_end(s, i + 1)
    } else {
        i
    }
}

/// The forms that were read, and the index at which reading goes on.
pub struct Parsed {
    pub forms: Seq<Value>,
    pub next: int,
}

/// One form that was read, and the index at which reading goes on.
pub struct ParsedForm {
    pub form: Value,
    pub next: int,
}

/// The failure for a bracket that is never closed.
pub open spec fn unclosed() -> Failure {
    Failure::Parse("a bracket is not closed"@)
}

/// The failure for a closing bracket that closes nothing, or not what was opened.
pub open spec fn unopened() -> Failure {
    Failure::Parse("a closing bracket does not match"@)
}

/// The failure for a character that no form can start with.
pub open spec fn unreadable() -> Failure {
    Failure::Parse("a character cannot be read"@)
}

/// The atom that the text `t` writes: a number where it has the shape of one, else a symbol.
pub open spec fn atom_of(t: Seq<char>) -> Result<Value, Failure> {
    if is_number_text(t) {
        match number_value(t) {
            Some(n) => Ok(Value::Num(n)),
            None => Err(Failure::NotANumber),
        }
    } else {
        Ok(Value::Sym(t))
    }
}

/// The form that starts at index `j` of `s`, where a character stands that is neither blank
/// nor a closing bracket.
pub open spec fn parse_form(s: Seq<char>, j: int) -> Result<ParsedForm, Failure>
    decreases s.len() - j, 0nat,
{
    if j < 0 || j >= s.len() {
        Err(unreadable())
    } else if s[j] == '(' {
        match parse_forms(s, j + 1, Some(')')) {
            Ok(p) => Ok(ParsedForm { form: Value::Sexpr(p.forms), next: p.next }),
            Err(e) => Err(e),
        }
    } else if s[j] == '{' {
        match parse_forms(s, j + 1, Some('}')) {
            Ok(p) => Ok(ParsedForm { form: Value::Qexpr(p.forms), next: p.next }),
            Err(e) => Err(e),
        }
    } else if is_atom_char(s[j]) {
        let k = atom_end(s, j);
        match atom_of(s.subrange(j, k)) {
            Ok(v) => Ok(ParsedForm { form: v, next: k }),
            Err(e) => Err(e),
        }
    } else {
        Err(unreadable())
    }
}

/// The forms from index `i` of `s` up to the bracket `closer`, or up to the end of `s` where
/// `closer` is `None`.
pub open spec fn parse_forms(s: Seq<char>, i: int, closer: Option<char>) -> Result<Parsed, Failure>
    decreases s.len() - i, 1nat,
{
    let j = skip_blanks(s, i);
    if i < 0 || j < i {
        Err(unreadable())
    } else if j >= s.len() {
        if closer is None {
            Ok(Parsed { forms: Seq::empty(), next: j })
        } else {
            Err(unclosed())
        }
    } else if s[j] == ')' || s[j] == '}' {
        if closer == Some(s[j]) {
            Ok(Parsed { forms: Seq::empty(), next: j + 1 })
        } else {
            Err(unopened())
        }
    } else {
        match parse_form(s, j) {
            Ok(first) => if first.next <= j || first.next > s.len() {
                Err(unreadable())
            } else {
                match parse_forms(s, first.next, closer) {
                    Ok(p) => Ok(Parsed { forms: seq![first.form] + p.forms, next: p.next }),
                    Err(e) => Err(e),
                }
            },
            Err(e) => Err(e),
        }
    }
}

/// The program that the text `s` writes.
pub open spec fn parse_of(s: Seq<char>) -> Result<Value, Failure> {
    match parse_forms(s, 0, None) {
        Ok(p) => Ok(Value::Blispr(p.forms)),
        Err(e) => Err(e),
    }
}

/// The forms `front`, then what `rest` read.
pub open spec fn after(front: Seq<Value>, rest: Result<Parsed, Failure>) -> Result<Parsed, Failure> {
    match rest {
        Ok(p) => Ok(Parsed { forms: front + p.forms, next: p.next }),
        Err(e) => Err(e),
    }
}

fn blank(c: char) -> (r: bool)
    ensures
        r == is_blank(c),
{
    c == ' ' || c == '\t' || c == '\n' || c == '\r'
}

fn digit(c: char) -> (r: Option<u64>)
    ensures
        r matches Some(d) ==> digit_value(c) == Some(d as nat) && d <= 9,
        r is None ==> digit_value(c) is None,
{
    if c == '0' {
        Some(0)
    } else if c == '1' {
        Some(1)
    } else if c == '2' {
        Some(2)
    } else if c == '3' {
        Some(3)
    } else if c == '4' {
        Some(4)
    } else if c == '5' {
        Some(5)
    } else if c == '6' {
        Some(6)
    } else if c == '7' {
        Some(7)
    } else if c == '8' {
        Some(8)
    } else if c == '9' {
        Some(9)
    } else {
        None
    }
}

fn atom_char(c: char) -> (r: bool)
    ensures
        r == is_atom_char(c),
{
    let code = c as u32;
    let letter = ('a' as u32 <= code && code <= 'z' as u32) || ('A' as u32 <= code && code
        <= 'Z' as u32);
    let mark = c == '+' || c == '-' || c == '*' || c == '/' || c == '%' || c == '^' || c == '='
        || c == '<' || c == '>' || c == '&' || c == '\\' || c == '_' || c == '?' || c == '!' || c
        == ':';
    letter || digit(c).is_some() || mark
}

fn find_line_end(chars: &Vec<char>, i: usize) -> (r: usize)
    requires
        i <= chars@.len(),
    ensures
        r == line_end(chars@, i as int),
        i <= r <= chars@.len(),
        i < chars@.len() ==> i < r,
{
    let mut k = i;
    while k < chars.len()
        invariant
            i <= k <= chars@.len(),
            line_end(chars@, i as int) == line_end(chars@, k as int),
        decreases chars@.len() - k,
    {
        if chars[k] == '\n' {
            return k + 1;
        }
        k += 1;
    }
    k
}

fn skip(chars: &Vec<char>, i: usize) -> (r: usize)
    requires
        i <= chars@.len(),
    ensures
        r == skip_blanks(chars@, i as int),
        i <= r <= chars@.len(),
{
    let mut k = i;
    while k < chars.len()
        invariant
            i <= k <= chars@.len(),
            skip_blanks(chars@, i as int) == skip_blanks(chars@, k as int),
        decreases chars@.len() - k,
    {
        let c = chars[k];
        if blank(c) {
            k += 1;
        } else if c == ';' {
            k = find_line_end(chars, k + 1);
        } else {
            return k;
        }
    }
    k
}

fn find_atom_end(chars: &Vec<char>, i: usize) -> (r: usize)
    requires
        i <= chars@.len(),
    ensures
        r == atom_end(chars@, i as int),
        i <= r <= chars@.len(),
        i < chars@.len() && is_atom_char(chars@[i as int]) ==> i < r,
{
    let mut k = i;
    while k < chars.len()
        invariant
            i <= k <= chars@.len(),
            atom_end(chars@, i as int) == atom_end(chars@, k as int),
            i < chars@.len() && is_atom_char(chars@[i as int]) && k == i ==> is_atom_char(chars@[k as int]),
        decreases chars@.len() - k,
    {
        if !atom_char(chars[k]) {
            return k;
        }
        k += 1;
    }
    k
}

fn digits_only(chars: &Vec<char>, j: usize, k: usize) -> (r: bool)
    requires
        j <= k <= chars@.len(),
    ensures
        r == all_digits(chars@.subrange(j as int, k as int)),
{
    let ghost t = chars@.subrange(j as int, k as int);
    let mut p = j;
    while p < k
        invariant
            j <= p <= k,
            k <= chars@.len(),
            t == chars@.subrange(j as int, k as int),
            forall|i: int| 0 <= i < p - j ==> digit_value(#[trigger] t[i]) is Some,
        decreases k - p,
    {
        if digit(chars[p]).is_none() {
            assert(t[p - j] == chars@[p as int]);
            return false;
        }
        assert(t[p - j] == chars@[p as int]);
        p += 1;
    }
    true
}

fn number_shaped(chars: &Vec<char>, j: usize, k: usize) -> (r: bool)
    requires
        j < k <= chars@.len(),
    ensures
        r == is_number_text(chars@.subrange(j as int, k as int)),
{
    let ghost t = chars@.subrange(j as int, k as int);
    assert(t[0] == chars@[j as int]);
    if chars[j] == '-' {
        assert(t.drop_first() =~= chars@.subrange(j + 1, k as int));
        k - j >= 2 && digits_only(chars, j + 1, k)
    } else {
        digits_only(chars, j, k)
    }
}

/// The digits that follow a prefix only make the number greater.
proof fn lemma_digits_grow(ds: Seq<char>, i: int)
    requires
        0 <= i <= ds.len(),
    ensures
        digits_value(ds.take(i)) <= digits_value(ds),
    decreases ds.len() - i,
{
    if i == ds.len() {
        assert(ds.take(i) =~= ds);
    } else {
        let next = ds.take(i + 1);
        assert(next.drop_last() =~= ds.take(i));
        lemma_digits_grow(ds, i + 1);
    }
}

fn read_digits(chars: &Vec<char>, j: usize, k: usize, limit: u64) -> (r: Option<u64>)
    requires
        j <= k <= chars@.len(),
        all_digits(chars@.subrange(j as int, k as int)),
        limit >= 9,
    ensures
        r matches Some(n) ==> n == digits_value(chars@.subrange(j as int, k as int)) && n <= limit,
        r is None ==> digits_value(chars@.subrange(j as int, k as int)) > limit,
{
    let ghost ds = chars@.subrange(j as int, k as int);
    let mut acc: u64 = 0;
    let mut p = j;
    assert(ds.take(0) =~= Seq::<char>::empty());
    while p < k
        invariant
            j <= p <= k,
            k <= chars@.len(),
            ds == chars@.subrange(j as int, k as int),
            all_digits(ds),
            acc == digits_value(ds.take(p - j)),
            acc <= limit,
            limit >= 9,
        decreases k - p,
    {
        proof {
            let next = ds.take(p - j + 1);
            assert(next.drop_last() =~= ds.take(p - j));
            assert(next.last() == ds[p - j]);
            assert(ds[p - j] == chars@[p as int]);
            lemma_digits_grow(ds, p - j + 1);
        }
        let d = match digit(chars[p]) {
            Some(d) => d,
            None => 0,
        };
        if acc > (limit - d) / 10 {
            return None;
        }
        acc = acc * 10 + d;
        p += 1;
    }
    assert(ds.take(p - j) =~= ds);
    Some(acc)
}

fn read_number(chars: &Vec<char>, j: usize, k: usize) -> (r: Option<i64>)
    requires
        j < k <= chars@.len(),
        is_number_text(chars@.subrange(j as int, k as int)),
    ensures
        r == number_value(chars@.subrange(j as int, k as int)),
{
    let ghost t = chars@.subrange(j as int, k as int);
    assert(t[0] == chars@[j as int]);
    if chars[j] == '-' {
        assert(t.drop_first() =~= chars@.subrange(j + 1, k as int));
        match read_digits(chars, j + 1, k, 0x8000_0000_0000_0000) {
            Some(n) => if n == 0x8000_0000_0000_0000 {
                Some(i64::MIN)
            } else {
                Some(-(n as i64))
            },
            None => None,
        }
    } else {
        match read_digits(chars, j, k, 0x7fff_ffff_ffff_ffff) {
            Some(n) => Some(n as i64),
            None => None,
        }
    }
}

fn text_of(chars: &Vec<char>, j: usize, k: usize) -> (r: String)
    requires
        j <= k <= chars@.len(),
    ensures
        r@ == chars@.subrange(j as int, k as int),
{
    let mut out = String::new();
    let mut p = j;
    while p < k
        invariant
            j <= p <= k,
            k <= chars@.len(),
            out@ == chars@.subrange(j as int, p as int),
        decreases k - p,
    {
        push_char(&mut out, chars[p]);
        assert(out@ =~= chars@.subrange(j as int, p + 1));
        p += 1;
    }
    out
}

/// The atom that stands from index `j` up to index `k`.
fn read_atom(chars: &Vec<char>, j: usize, k: usize) -> (r: BlisprResult)
    requires
        j < k <= chars@.len(),
    ensures
        outcome_of(r) == atom_of(chars@.subrange(j as int, k as int)),
{
    if number_shaped(chars, j, k) {
        match read_number(chars, j, k) {
            Some(n) => Ok(Box::new(Lval::Num(n))),
            None => Err(Error::NotANumber),
        }
    } else {
        Ok(Box::new(Lval::Sym(text_of(chars, j, k))))
    }
}

/// Reads the form that starts at index `j`, and says where reading goes on.
fn lval_read(chars: &Vec<char>, j: usize) -> (r: Result<(Box<Lval>, usize), Error>)
    requires
        j < chars@.len(),
    ensures
        parse_form(chars@, j as int) matches Ok(p) ==> (r matches Ok(got) && got.0@ == p.form
            && got.1 == p.next && j < got.1 <= chars@.len()),
        parse_form(chars@, j as int) matches Err(f) ==> (r matches Err(e) && e@ == f),
    decreases chars@.len() - j, 0nat,
{
    let len = chars.len();
    let c = chars[j];
    if c == '(' {
        match read_to_lval(chars, j + 1, Some(')')) {
            Ok((cells, next)) => Ok((Box::new(Lval::Sexpr(cells)), next)),
            Err(e) => Err(e),
        }
    } else if c == '{' {
        match read_to_lval(chars, j + 1, Some('}')) {
            Ok((cells, next)) => Ok((Box::new(Lval::Qexpr(cells)), next)),
            Err(e) => Err(e),
        }
    } else if atom_char(c) {
        let k = find_atom_end(chars, j);
        match read_atom(chars, j, k) {
            Ok(v) => Ok((v, k)),
            Err(e) => Err(e),
        }
    } else {
        Err(Error::Parse(String::from_str("a character cannot be read")))
    }
}

/// Reads the forms from index `i` up to the bracket `closer`, or up to the end of the text
/// where `closer` is `None`, and says where reading goes on.
fn read_to_lval(chars: &Vec<char>, i: usize, closer: Option<char>) -> (r: Result<
    (Vec<Box<Lval>>, usize),
    Error,
>)
    requires
        i <= chars@.len(),
    ensures
        parse_forms(chars@, i as int, closer) matches Ok(p) ==> (r matches Ok(got) && cells_of(
            got.0,
        ) == p.forms && got.1 == p.next && i <= got.1 <= chars@.len() && (closer is Some ==> i
            < got.1)),
        parse_forms(chars@, i as int, closer) matches Err(f) ==> (r matches Err(e) && e@ == f),
    decreases chars@.len() - i, 1nat,
{
    let ghost goal = parse_forms(chars@, i as int, closer);
    let mut out: Vec<Box<Lval>> = Vec::new();
    let mut at = i;
    proof {
        lemma_cells_of(out);
        assert(cells_of(out) =~= Seq::<Value>::empty());
        assert(after(cells_of(out), goal) == goal) by {
            if let Ok(p) = goal {
                assert(cells_of(out) + p.forms =~= p.forms);
            }
        }
    }
    loop
        invariant
            i <= at <= chars@.len(),
            goal == parse_forms(chars@, i as int, closer),
            goal == after(cells_of(out), parse_forms(chars@, at as int, closer)),
        decreases chars@.len() - at,
    {
        let j = skip(chars, at);
        if j >= chars.len() {
            proof {
                assert(cells_of(out) + Seq::<Value>::empty() =~= cells_of(out));
            }
            return match closer {
                None => Ok((out, j)),
                Some(_) => Err(Error::Parse(String::from_str("a bracket is not closed"))),
            };
        }
        let c = chars[j];
        if c == ')' || c == '}' {
            proof {
                assert(cells_of(out) + Seq::<Value>::empty() =~= cells_of(out));
            }
            let closes = match closer {
                Some(want) => want == c,
                None => false,
            };
            return if closes {
                Ok((out, j + 1))
            } else {
                Err(Error::Parse(String::from_str("a closing bracket does not match")))
            };
        }
        match lval_read(chars, j) {
            Ok((v, next)) => {
                let ghost before = cells_of(out);
                out.push(v);
                proof {
                    lemma_cells_of(out);
                    assert(cells_of(out) =~= before.push(v@));
                    let rest = parse_forms(chars@, next as int, closer);
                    if let Ok(p) = rest {
                        assert(before + (seq![v@] + p.forms) =~= cells_of(out) + p.forms);
                    }
                }
                at = next;
            },
            Err(e) => {
                return Err(e);
            },
        }
    }
}

/// The reader of programs.
pub struct BlisprParser;

impl BlisprParser {
    /// Reads the program that `s` writes: its forms, in the order in which they stand.
    pub fn parse(s: &str) -> (r: BlisprResult)
        ensures
            outcome_of(r) == parse_of(s@),
    {
        let chars = chars_of(s);
        match read_to_lval(&chars, 0, None) {
            Ok((cells, _)) => Ok(Box::new(Lval::Blispr(cells))),
            Err(e) => Err(e),
        }
    }
}

/// What reading and then evaluating the text `s` gives.
pub open spec fn eval_str_of(scopes: Scopes, s: Seq<char>) -> Outcome {
    match parse_of(s) {
        Ok(program) => eval_of(scopes, program, MAX_DEPTH as nat),
        Err(f) => Outcome { result: Err(f), scopes },
    }
}

/// Reads the program that `s` writes and evaluates it in `e`.
pub fn eval_str(e: &mut Lenv, s: &str) -> (r: BlisprResult)
    ensures
        outcome_of(r) == eval_str_of(old(e)@, s@).result,
        final(e)@ == eval_str_of(old(e)@, s@).scopes,
        final(e)@.len() == old(e)@.len(),
{
    let mut program = match BlisprParser::parse(s) {
        Ok(program) => program,
        Err(err) => {
            return Err(err);
        },
    };
    lval_eval(e, &mut program)
}

} // verus!
