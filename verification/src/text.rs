use vstd::prelude::*;
use vstd::std_specs::iter::IteratorSpec;
use vstd::string::*;

verus! {

/// The character that writes the digit `d`, for `0 <= d <= 9`.
pub open spec fn digit_char(d: int) -> char {
    if d == 0 {
        '0'
    } else if d == 1 {
        '1'
    } else if d == 2 {
        '2'
    } else if d == 3 {
        '3'
    } else if d == 4 {
        '4'
    } else if d == 5 {
        '5'
    } else if d == 6 {
        '6'
    } else if d == 7 {
        '7'
    } else if d == 8 {
        '8'
    } else {
        '9'
    }
}

/// The decimal numeral of `n`, without leading zeros.
pub open spec fn decimal(n: nat) -> Seq<char>
    decreases n,
{
    if n < 10 {
        seq![digit_char(n as int)]
    } else {
        decimal(n / 10).push(digit_char((n % 10) as int))
    }
}

/// The decimal numeral of `n`, with a leading `-` when `n` is negative.
pub open spec fn signed_decimal(n: int) -> Seq<char> {
    if n < 0 {
        seq!['-'] + decimal((-n) as nat)
    } else {
        decimal(n as nat)
    }
}

/// Calls `String::push`: the character is added at the end.
#[verifier::external_body]
pub(crate) fn push_char(s: &mut String, c: char)
    ensures
        final(s)@ == old(s)@.push(c),
{
    s.push(c)
}

/// Calls `str::eq`: two strings are equal when they hold the same characters.
#[verifier::external_body]
pub(crate) fn same_text(a: &str, b: &str) -> (r: bool)
    ensures
        r == (a@ == b@),
{
    a == b
}

fn digit_of(d: u64) -> (c: char)
    requires
        d < 10,
    ensures
        c == digit_char(d as int),
{
    if d == 0 {
        '0'
    } else if d == 1 {
        '1'
    } else if d == 2 {
        '2'
    } else if d == 3 {
        '3'
    } else if d == 4 {
        '4'
    } else if d == 5 {
        '5'
    } else if d == 6 {
        '6'
    } else if d == 7 {
        '7'
    } else if d == 8 {
        '8'
    } else {
        '9'
    }
}

/// Appends the decimal numeral of `n` to `s`.
pub fn push_decimal(s: &mut String, n: u64)
    ensures
        final(s)@ == old(s)@ + decimal(n as nat),
    decreases n,
{
    if n >= 10 {
        push_decimal(s, n / 10);
    }
    push_char(s, digit_of(n % 10));
    assert(final(s)@ =~= old(s)@ + decimal(n as nat));
}

/// Appends the decimal numeral of `n`, with its sign, to `s`.
pub fn push_signed_decimal(s: &mut String, n: i64)
    ensures
        final(s)@ == old(s)@ + signed_decimal(n as int),
{
    if n < 0 {
        push_char(s, '-');
        let magnitude: u64 = if n == i64::MIN {
            9223372036854775808u64
        } else {
            (-n) as u64
        };
        push_decimal(s, magnitude);
        assert(final(s)@ =~= old(s)@ + signed_decimal(n as int));
    } else {
        push_decimal(s, n as u64);
    }
}

/// The characters of `s`, in order.
pub fn chars_of(s: &str) -> (r: Vec<char>)
    ensures
        r@ == s@,
{
    let mut out: Vec<char> = Vec::new();
    let mut it = s.chars();
    loop
        invariant
            out@ + it.remaining() == s@,
            it.obeys_prophetic_iter_laws(),
            it.decrease() is Some,
        ensures
            it.remaining().len() == 0,
        decreases it.decrease()->0,
    {
        match it.next() {
            Some(c) => {
                out.push(c);
            },
            None => {
                break ;
            },
        }
    }
    assert(out@ =~= s@);
    out
}

/// Whether `a` comes no later than `b` when strings are ordered character by character.
pub open spec fn text_precedes(a: Seq<char>, b: Seq<char>) -> bool
    decreases a.len(),
{
    if a.len() == 0 {
        true
    } else if b.len() == 0 {
        false
    } else if a[0] == b[0] {
        text_precedes(a.drop_first(), b.drop_first())
    } else {
        (a[0] as u32) < (b[0] as u32)
    }
}

/// Of two strings, one comes no later than the other.
pub proof fn lemma_precedes_total(a: Seq<char>, b: Seq<char>)
    ensures
        text_precedes(a, b) || text_precedes(b, a),
    decreases a.len(),
{
    if a.len() > 0 && b.len() > 0 {
        if a[0] == b[0] {
            lemma_precedes_total(a.drop_first(), b.drop_first());
        } else {
            let x = a[0];
            let y = b[0];
            vstd::utf8::char_u32_cast(x, x as u32);
            vstd::utf8::char_u32_cast(y, y as u32);
        }
    }
}

/// Two strings that each come no later than the other are the same string.
pub proof fn lemma_precedes_antisymmetric(a: Seq<char>, b: Seq<char>)
    requires
        text_precedes(a, b),
        text_precedes(b, a),
    ensures
        a == b,
    decreases a.len(),
{
    if a.len() == 0 || b.len() == 0 {
        assert(a =~= b);
    } else {
        lemma_precedes_antisymmetric(a.drop_first(), b.drop_first());
        assert(a =~= seq![a[0]] + a.drop_first());
        assert(b =~= seq![b[0]] + b.drop_first());
    }
}

/// What comes no later than a string comes no later than everything after that string.
pub proof fn lemma_precedes_transitive(a: Seq<char>, b: Seq<char>, c: Seq<char>)
    requires
        text_precedes(a, b),
        text_precedes(b, c),
    ensures
        text_precedes(a, c),
    decreases a.len(),
{
    if a.len() > 0 && b.len() > 0 && c.len() > 0 && a[0] == b[0] && b[0] == c[0] {
        lemma_precedes_transitive(a.drop_first(), b.drop_first(), c.drop_first());
    }
}

/// Whether `a` comes no later than `b` when strings are ordered character by character.
pub fn precedes(a: &str, b: &str) -> (r: bool)
    ensures
        r == text_precedes(a@, b@),
{
    let mut ia = a.chars();
    let mut ib = b.chars();
    loop
        invariant
            ia.obeys_prophetic_iter_laws(),
            ib.obeys_prophetic_iter_laws(),
            ia.decrease() is Some,
            ib.decrease() is Some,
            text_precedes(a@, b@) == text_precedes(ia.remaining(), ib.remaining()),
        decreases ia.decrease()->0,
    {
        let ghost ra = ia.remaining();
        let ghost rb = ib.remaining();
        match ia.next() {
            None => {
                return true;
            },
            Some(x) => {
                match ib.next() {
                    None => {
                        return false;
                    },
                    Some(y) => {
                        if x != y {
                            return (x as u32) < (y as u32);
                        }
                    },
                }
            },
        }
    }
}

} // verus!
