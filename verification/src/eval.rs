use crate::error::{outcome_of, BlisprResult, Error, Failure};
use crate::lenv::Lenv;
use crate::lookup::{lookup_bindings, LEnvLookup};
use crate::lval::{
    cells_of, clone_cells, lambda, lemma_cells_of, num, sexpr, Func, LBuiltin, Lval, Value,
};
use crate::semantics::{
    apply_of, arith, arith_fold, arith_named, arith_of, arith_step, bind_formals, bind_names,
    concat_all, cons_of, count_of, eval_builtin_of, eval_cells_of, eval_of, first_arg,
    first_non_symbol, head_of, init_of, join_of, lambda_of, list_of, listing, power, pure_of,
    tail_of, var_of, wrong_type, Bindings, Bound, CellsOutcome, Outcome, Scopes,
};
use crate::text::same_text;
use vstd::prelude::*;
use vstd::string::*;

verus! {

/// The error for a value of the wrong kind.
fn wrong_kind(expected: &str, got: &Lval) -> (e: Error)
    ensures
        e@ == wrong_type(expected@, got@),
{
    Error::WrongType(String::from_str(expected), got.to_string())
}

/// The arithmetic operation that goes by the name `func`.
fn arith_by_name(func: &str) -> (r: Option<LBuiltin>)
    ensures
        r == arith_named(func@),
{
    if same_text(func, "+") || same_text(func, "add") {
        Some(LBuiltin::Add)
    } else if same_text(func, "-") || same_text(func, "sub") {
        Some(LBuiltin::Sub)
    } else if same_text(func, "*") || same_text(func, "mul") {
        Some(LBuiltin::Mul)
    } else if same_text(func, "/") || same_text(func, "div") {
        Some(LBuiltin::Div)
    } else if same_text(func, "%") || same_text(func, "rem") {
        Some(LBuiltin::Rem)
    } else if same_text(func, "^") || same_text(func, "pow") {
        Some(LBuiltin::Pow)
    } else if same_text(func, "min") {
        Some(LBuiltin::Min)
    } else if same_text(func, "max") {
        Some(LBuiltin::Max)
    } else {
        None
    }
}

/// `x` multiplied by itself `y` times, starting from one.
fn raise(x: i64, y: i64) -> (r: i64)
    ensures
        r == power(x, y as int),
{
    let mut coll: i64 = 1;
    let mut i: i64 = 0;
    while i < y
        invariant
            0 <= i,
            i <= y || (y < 0 && i == 0),
            coll == power(x, i as int),
        decreases y - i,
    {
        coll = coll.wrapping_mul(x);
        i += 1;
    }
    coll
}

/// `a` divided by `b`, rounded toward zero; the one quotient that does not fit wraps around.
fn quotient(a: i64, b: i64) -> (r: i64)
    requires
        b != 0,
    ensures
        r == arith(LBuiltin::Div, a, b),
{
    proof {
        let x = a as int;
        let d = b as int;
        if x > 0 && d > 0 {
            assert(0 <= x / d <= x) by (nonlinear_arith)
                requires
                    x > 0,
                    d > 0,
            ;
        } else if x < 0 && d < 0 {
            assert(0 <= (x * -1) / (d * -1) <= x * -1) by (nonlinear_arith)
                requires
                    x < 0,
                    d < 0,
            ;
            if d <= -2 {
                assert((x * -1) / (d * -1) < x * -1) by (nonlinear_arith)
                    requires
                        x < 0,
                        d <= -2,
                ;
            }
        } else if x < 0 {
            assert(0 <= (x * -1) / d <= x * -1) by (nonlinear_arith)
                requires
                    x < 0,
                    d > 0,
            ;
        } else if x > 0 {
            assert(0 <= x / (d * -1) <= x) by (nonlinear_arith)
                requires
                    x > 0,
                    d < 0,
            ;
        }
    }
    match a.checked_div(b) {
        Some(q) => q,
        None => i64::MIN,
    }
}

/// The remainder of `a` divided by `b`, with the sign of `a`.
fn remainder(a: i64, b: i64) -> (r: i64)
    requires
        b != 0,
    ensures
        r == arith(LBuiltin::Rem, a, b),
{
    proof {
        let x = a as int;
        let d = b as int;
        if x > 0 && d > 0 {
            assert(0 <= x % d < d) by (nonlinear_arith)
                requires
                    d > 0,
            ;
        } else if x < 0 && d < 0 {
            assert(0 <= (x * -1) % (d * -1) < d * -1) by (nonlinear_arith)
                requires
                    d < 0,
            ;
        } else if x < 0 {
            assert(0 <= (x * -1) % d < d) by (nonlinear_arith)
                requires
                    d > 0,
            ;
        } else if x > 0 {
            assert(0 <= x % (d * -1) < d * -1) by (nonlinear_arith)
                requires
                    d < 0,
            ;
        }
    }
    match a.checked_rem(b) {
        Some(q) => q,
        None => 0,
    }
}

/// The arithmetic operation `op` on two numbers.
fn binop(op: LBuiltin, a: i64, b: i64) -> (r: i64)
    requires
        (op is Div || op is Rem) ==> b != 0,
    ensures
        r == arith(op, a, b),
{
    match op {
        LBuiltin::Add => a.wrapping_add(b),
        LBuiltin::Sub => a.wrapping_sub(b),
        LBuiltin::Mul => a.wrapping_mul(b),
        LBuiltin::Div => quotient(a, b),
        LBuiltin::Rem => remainder(a, b),
        LBuiltin::Pow => raise(a, b),
        LBuiltin::Max => if a > b {
            a
        } else {
            b
        },
        LBuiltin::Min => if a < b {
            a
        } else {
            b
        },
        _ => a,
    }
}

/// One step of the fold.
fn fold_step(op: LBuiltin, x: &Lval, y: &Lval) -> (r: BlisprResult)
    ensures
        outcome_of(r) == arith_step(op, x@, y@),
{
    match y {
        Lval::Num(b) => {
            let divides = match op {
                LBuiltin::Div => true,
                LBuiltin::Rem => true,
                _ => false,
            };
            if divides && *b == 0 {
                return Err(Error::DivideByZero);
            }
            match x {
                Lval::Num(a) => Ok(num(binop(op, *a, *b))),
                _ => Err(Error::NotANumber),
            }
        },
        _ => Err(Error::NotANumber),
    }
}

/// Applies the arithmetic operation called `func` to the arguments `v` in succession,
/// from the left.
pub fn builtin_op(v: &mut Lval, func: &str) -> (r: BlisprResult)
    requires
        arith_named(func@) is Some,
    ensures
        outcome_of(r) == arith_of(arith_named(func@)->0, old(v)@),
        *final(v) == *old(v),
{
    let op = match arith_by_name(func) {
        Some(op) => op,
        None => {
            return Err(Error::NotANumber);
        },
    };
    let cells = match &*v {
        Lval::Sexpr(cells) => cells,
        _ => {
            return Ok(Box::new(v.clone()));
        },
    };
    proof {
        lemma_cells_of(*cells);
    }
    let ghost cs = cells_of(*cells);
    let child_count = cells.len();
    if child_count == 0 {
        return Err(Error::NumArguments(1, 0));
    }
    if child_count == 1 {
        return match &*cells[0] {
            Lval::Num(a) => {
                let negates = match op {
                    LBuiltin::Sub => true,
                    _ => false,
                };
                if negates {
                    Ok(num(0i64.wrapping_sub(*a)))
                } else {
                    Ok(num(*a))
                }
            },
            _ => Err(Error::NotANumber),
        };
    }
    let mut x: Box<Lval> = Box::new((*cells[0]).clone());
    let mut i: usize = 1;
    assert(cs.take(1).len() == 1);
    while i < child_count
        invariant
            1 <= i <= child_count,
            2 <= child_count,
            child_count == cells@.len(),
            old(v)@ == Value::Sexpr(cs),
            arith_named(func@) == Some(op),
            cs == cells_of(*cells),
            cs.len() == cells@.len(),
            forall|j: int| 0 <= j < cells@.len() ==> #[trigger] cs[j] == cells@[j]@,
            arith_fold(op, cs.take(i as int)) == Ok::<Value, Failure>(x@),
        decreases child_count - i,
    {
        proof {
            let next = cs.take(i + 1);
            assert(next.drop_last() =~= cs.take(i as int));
            assert(next.last() == cs[i as int]);
        }
        x = match fold_step(op, &x, &cells[i]) {
            Ok(next) => next,
            Err(e) => {
                proof {
                    lemma_fold_fails(op, cs, i + 1);
                }
                return Err(e);
            },
        };
        i += 1;
    }
    assert(cs.take(i as int) =~= cs);
    Ok(x)
}

/// Once the fold has failed on a prefix, it fails in the same way on the whole.
proof fn lemma_fold_fails(op: LBuiltin, cs: Seq<Value>, k: int)
    requires
        1 <= k <= cs.len(),
        arith_fold(op, cs.take(k)) is Err,
    ensures
        arith_fold(op, cs) == arith_fold(op, cs.take(k)),
    decreases cs.len() - k,
{
    if k == cs.len() {
        assert(cs.take(k) =~= cs);
    } else {
        let next = cs.take(k + 1);
        assert(next.drop_last() =~= cs.take(k));
        lemma_fold_fails(op, cs, k + 1);
    }
}

/// The names of the arithmetic operations name one operation each.
pub proof fn lemma_arith_names()
    ensures
        arith_named("+"@) == Some(LBuiltin::Add),
        arith_named("-"@) == Some(LBuiltin::Sub),
        arith_named("*"@) == Some(LBuiltin::Mul),
        arith_named("/"@) == Some(LBuiltin::Div),
        arith_named("%"@) == Some(LBuiltin::Rem),
        arith_named("^"@) == Some(LBuiltin::Pow),
        arith_named("min"@) == Some(LBuiltin::Min),
        arith_named("max"@) == Some(LBuiltin::Max),
{
    reveal_strlit("+");
    reveal_strlit("add");
    reveal_strlit("-");
    reveal_strlit("sub");
    reveal_strlit("*");
    reveal_strlit("mul");
    reveal_strlit("/");
    reveal_strlit("div");
    reveal_strlit("%");
    reveal_strlit("rem");
    reveal_strlit("^");
    reveal_strlit("pow");
    reveal_strlit("min");
    reveal_strlit("max");
    assert("+"@.len() == 1 && "+"@[0] == '+');
    assert("-"@.len() == 1 && "-"@[0] == '-');
    assert("*"@.len() == 1 && "*"@[0] == '*');
    assert("/"@.len() == 1 && "/"@[0] == '/');
    assert("%"@.len() == 1 && "%"@[0] == '%');
    assert("^"@.len() == 1 && "^"@[0] == '^');
    assert("add"@.len() == 3 && "add"@[0] == 'a');
    assert("sub"@.len() == 3 && "sub"@[0] == 's');
    assert("mul"@.len() == 3 && "mul"@[0] == 'm' && "mul"@[1] == 'u');
    assert("div"@.len() == 3 && "div"@[0] == 'd');
    assert("rem"@.len() == 3 && "rem"@[0] == 'r');
    assert("pow"@.len() == 3 && "pow"@[0] == 'p');
    assert("min"@.len() == 3 && "min"@[0] == 'm' && "min"@[1] == 'i');
    assert("max"@.len() == 3 && "max"@[0] == 'm' && "max"@[1] == 'a');
}

/// The sum of the arguments.
pub fn builtin_add(a: &mut Lval) -> (r: BlisprResult)
    ensures
        outcome_of(r) == arith_of(LBuiltin::Add, old(a)@),
        *final(a) == *old(a),
{
    proof {
        lemma_arith_names();
    }
    builtin_op(a, "+")
}

/// The first argument less all the others; the negation of a single argument.
pub fn builtin_sub(a: &mut Lval) -> (r: BlisprResult)
    ensures
        outcome_of(r) == arith_of(LBuiltin::Sub, old(a)@),
        *final(a) == *old(a),
{
    proof {
        lemma_arith_names();
    }
    builtin_op(a, "-")
}

/// The product of the arguments.
pub fn builtin_mul(a: &mut Lval) -> (r: BlisprResult)
    ensures
        outcome_of(r) == arith_of(LBuiltin::Mul, old(a)@),
        *final(a) == *old(a),
{
    proof {
        lemma_arith_names();
    }
    builtin_op(a, "*")
}

/// The first argument divided by each of the others in turn.
pub fn builtin_div(a: &mut Lval) -> (r: BlisprResult)
    ensures
        outcome_of(r) == arith_of(LBuiltin::Div, old(a)@),
        *final(a) == *old(a),
{
    proof {
        lemma_arith_names();
    }
    builtin_op(a, "/")
}

/// The first argument raised to each of the others in turn.
pub fn builtin_pow(a: &mut Lval) -> (r: BlisprResult)
    ensures
        outcome_of(r) == arith_of(LBuiltin::Pow, old(a)@),
        *final(a) == *old(a),
{
    proof {
        lemma_arith_names();
    }
    builtin_op(a, "^")
}

/// The remainder of the first argument by each of the others in turn.
pub fn builtin_rem(a: &mut Lval) -> (r: BlisprResult)
    ensures
        outcome_of(r) == arith_of(LBuiltin::Rem, old(a)@),
        *final(a) == *old(a),
{
    proof {
        lemma_arith_names();
    }
    builtin_op(a, "%")
}

/// The greatest of the arguments.
pub fn builtin_max(a: &mut Lval) -> (r: BlisprResult)
    ensures
        outcome_of(r) == arith_of(LBuiltin::Max, old(a)@),
        *final(a) == *old(a),
{
    proof {
        lemma_arith_names();
    }
    builtin_op(a, "max")
}

/// The least of the arguments.
pub fn builtin_min(a: &mut Lval) -> (r: BlisprResult)
    ensures
        outcome_of(r) == arith_of(LBuiltin::Min, old(a)@),
        *final(a) == *old(a),
{
    proof {
        lemma_arith_names();
    }
    builtin_op(a, "min")
}

/// The cells of a container, or the error for a value that has none.
fn cells_in(v: &Lval) -> (r: Result<&Vec<Box<Lval>>, Error>)
    ensures
        v@.cells() matches Some(cs) ==> (r matches Ok(cells) && cells_of(*cells) == cs),
        v@.cells() is None ==> (r matches Err(e) && e@ == Failure::NoChildren),
{
    match v {
        Lval::Sexpr(cells) => Ok(cells),
        Lval::Qexpr(cells) => Ok(cells),
        Lval::Blispr(cells) => Ok(cells),
        _ => Err(Error::NoChildren),
    }
}

/// The first argument of an argument list.
fn first_of(v: &Lval) -> (r: Result<&Box<Lval>, Error>)
    ensures
        first_arg(v@) matches Ok(x) ==> (r matches Ok(b) && b@ == x),
        first_arg(v@) matches Err(f) ==> (r matches Err(e) && e@ == f),
{
    let cells = match cells_in(v) {
        Ok(cells) => cells,
        Err(e) => {
            return Err(e);
        },
    };
    proof {
        lemma_cells_of(*cells);
    }
    if cells.len() == 0 {
        Err(Error::NumArguments(1, 0))
    } else {
        Ok(&cells[0])
    }
}

/// Copies of the cells of `cells` from `from` up to `to`.
fn copy_range(cells: &Vec<Box<Lval>>, from: usize, to: usize) -> (out: Vec<Box<Lval>>)
    requires
        from <= to <= cells@.len(),
    ensures
        cells_of(out) == cells_of(*cells).subrange(from as int, to as int),
{
    proof {
        lemma_cells_of(*cells);
    }
    let mut out: Vec<Box<Lval>> = Vec::new();
    let mut i: usize = from;
    while i < to
        invariant
            from <= i <= to,
            to <= cells@.len(),
            out@.len() == i - from,
            forall|j: int| 0 <= j < i - from ==> #[trigger] out@[j]@ == cells@[from + j]@,
        decreases to - i,
    {
        out.push(Box::new((*cells[i]).clone()));
        i += 1;
    }
    proof {
        lemma_cells_of(out);
        assert(cells_of(out) =~= cells_of(*cells).subrange(from as int, to as int));
    }
    out
}

/// A Q-expression whose cells are copies of the cells of `cells` from `from` up to `to`.
fn qexpr_of_range(cells: &Vec<Box<Lval>>, from: usize, to: usize) -> (r: Box<Lval>)
    requires
        from <= to <= cells@.len(),
    ensures
        r@ == Value::Qexpr(cells_of(*cells).subrange(from as int, to as int)),
{
    Box::new(Lval::Qexpr(copy_range(cells, from, to)))
}

/// Attaches a value to the front of a Q-expression.
pub fn builtin_cons(v: &mut Lval) -> (r: BlisprResult)
    ensures
        outcome_of(r) == cons_of(old(v)@),
        *final(v) == *old(v),
{
    let cells = match cells_in(v) {
        Ok(cells) => cells,
        Err(e) => {
            return Err(e);
        },
    };
    proof {
        lemma_cells_of(*cells);
    }
    let child_count = cells.len();
    if child_count != 2 {
        return Err(Error::NumArguments(2, child_count));
    }
    match &*cells[1] {
        Lval::Qexpr(children) => {
            let mut out: Vec<Box<Lval>> = clone_cells(children);
            out.insert(0, Box::new((*cells[0]).clone()));
            proof {
                lemma_cells_of(out);
                lemma_cells_of(*children);
                assert(cells_of(out) =~= seq![cells@[0]@] + cells_of(*children));
            }
            Ok(Box::new(Lval::Qexpr(out)))
        },
        other => Err(wrong_kind("qexpr", other)),
    }
}

/// The first element of a Q-expression.
pub fn builtin_head(v: &mut Lval) -> (r: BlisprResult)
    ensures
        outcome_of(r) == head_of(old(v)@),
        *final(v) == *old(v),
{
    let first = match first_of(v) {
        Ok(first) => first,
        Err(e) => {
            return Err(e);
        },
    };
    match &**first {
        Lval::Qexpr(children) => {
            proof {
                lemma_cells_of(*children);
            }
            if children.len() == 0 {
                return Err(Error::EmptyList);
            }
            Ok(Box::new((*children[0]).clone()))
        },
        other => Err(wrong_kind("qexpr", other)),
    }
}

/// Everything but the last element of a Q-expression.
pub fn builtin_init(v: &mut Lval) -> (r: BlisprResult)
    ensures
        outcome_of(r) == init_of(old(v)@),
        *final(v) == *old(v),
{
    let first = match first_of(v) {
        Ok(first) => first,
        Err(e) => {
            return Err(e);
        },
    };
    match &**first {
        Lval::Qexpr(children) => {
            proof {
                lemma_cells_of(*children);
            }
            let n = children.len();
            let keep = if n == 0 {
                0
            } else {
                n - 1
            };
            let r = qexpr_of_range(children, 0, keep);
            proof {
                let cs = cells_of(*children);
                if n == 0 {
                    assert(cs.subrange(0, 0) =~= cs);
                } else {
                    assert(cs.subrange(0, keep as int) =~= cs.drop_last());
                }
            }
            Ok(r)
        },
        other => Err(wrong_kind("qexpr", other)),
    }
}

/// Everything but the first element of a Q-expression.
pub fn builtin_tail(v: &mut Lval) -> (r: BlisprResult)
    ensures
        outcome_of(r) == tail_of(old(v)@),
        *final(v) == *old(v),
{
    let first = match first_of(v) {
        Ok(first) => first,
        Err(e) => {
            return Err(e);
        },
    };
    match &**first {
        Lval::Qexpr(children) => {
            proof {
                lemma_cells_of(*children);
            }
            if children.len() == 0 {
                return Err(Error::EmptyList);
            }
            let r = qexpr_of_range(children, 1, children.len());
            proof {
                let cs = cells_of(*children);
                assert(cs.subrange(1, cs.len() as int) =~= cs.drop_first());
            }
            Ok(r)
        },
        other => Err(wrong_kind("qexpr", other)),
    }
}

/// The arguments as one Q-expression.
pub fn builtin_list(v: &mut Lval) -> (r: BlisprResult)
    ensures
        outcome_of(r) == list_of(old(v)@),
        *final(v) == *old(v),
{
    match &*v {
        Lval::Sexpr(children) => Ok(Box::new(Lval::Qexpr(clone_cells(children)))),
        _ => Ok(Box::new(v.clone())),
    }
}

/// The number of elements of a Q-expression.
pub fn builtin_len(v: &mut Lval) -> (r: BlisprResult)
    ensures
        outcome_of(r) == count_of(old(v)@),
        *final(v) == *old(v),
{
    let cells = match cells_in(v) {
        Ok(cells) => cells,
        Err(e) => {
            return Err(e);
        },
    };
    proof {
        lemma_cells_of(*cells);
    }
    let child_count = cells.len();
    if child_count != 1 {
        return Err(Error::NumArguments(1, child_count));
    }
    match &*cells[0] {
        Lval::Qexpr(children) => {
            proof {
                lemma_cells_of(*children);
            }
            Ok(num(children.len() as i64))
        },
        other => Err(wrong_kind("qexpr", other)),
    }
}

/// Joins the arguments, all of them Q-expressions, into one.
pub fn builtin_join(v: &mut Lval) -> (r: BlisprResult)
    ensures
        outcome_of(r) == join_of(old(v)@),
        *final(v) == *old(v),
{
    let cells = match cells_in(v) {
        Ok(cells) => cells,
        Err(e) => {
            return Err(e);
        },
    };
    proof {
        lemma_cells_of(*cells);
    }
    let ghost cs = cells_of(*cells);
    let mut out: Vec<Box<Lval>> = Vec::new();
    let mut i: usize = 0;
    proof {
        lemma_cells_of(out);
        assert(cs.take(0) =~= Seq::<Value>::empty());
        assert(cells_of(out) =~= Seq::<Value>::empty());
    }
    while i < cells.len()
        invariant
            i <= cells@.len(),
            cs == cells_of(*cells),
            cs.len() == cells@.len(),
            old(v)@.cells() == Some(cs),
            forall|j: int| 0 <= j < cells@.len() ==> #[trigger] cs[j] == cells@[j]@,
            concat_all(cs.take(i as int)) == Ok::<Seq<Value>, Failure>(cells_of(out)),
        decreases cells@.len() - i,
    {
        proof {
            let next = cs.take(i + 1);
            assert(next.drop_last() =~= cs.take(i as int));
            assert(next.last() == cs[i as int]);
        }
        match &*cells[i] {
            Lval::Qexpr(children) => {
                let ghost before = cells_of(out);
                let mut more = clone_cells(children);
                proof {
                    lemma_cells_of(out);
                    lemma_cells_of(more);
                }
                let ghost added = cells_of(more);
                out.append(&mut more);
                proof {
                    lemma_cells_of(out);
                    assert(cells_of(out) =~= before + added);
                }
            },
            other => {
                let e = wrong_kind("qexpr", other);
                proof {
                    lemma_concat_fails(cs, i + 1);
                }
                return Err(e);
            },
        }
        i += 1;
    }
    assert(cs.take(i as int) =~= cs);
    Ok(Box::new(Lval::Qexpr(out)))
}

/// Once joining has failed on a prefix, it fails in the same way on the whole.
proof fn lemma_concat_fails(cs: Seq<Value>, k: int)
    requires
        0 <= k <= cs.len(),
        concat_all(cs.take(k)) is Err,
    ensures
        concat_all(cs) == concat_all(cs.take(k)),
    decreases cs.len() - k,
{
    if k == cs.len() {
        assert(cs.take(k) =~= cs);
    } else {
        let next = cs.take(k + 1);
        assert(next.drop_last() =~= cs.take(k));
        lemma_concat_fails(cs, k + 1);
    }
}

/// The first cell of `cells` that is no symbol, if there is one.
fn find_non_symbol(cells: &Vec<Box<Lval>>) -> (r: Option<&Box<Lval>>)
    ensures
        first_non_symbol(cells_of(*cells)) matches Some(x) ==> (r matches Some(b) && b@ == x),
        first_non_symbol(cells_of(*cells)) is None ==> r is None,
{
    proof {
        lemma_cells_of(*cells);
    }
    let ghost cs = cells_of(*cells);
    let mut i: usize = 0;
    while i < cells.len()
        invariant
            i <= cells@.len(),
            cs == cells_of(*cells),
            cs.len() == cells@.len(),
            forall|j: int| 0 <= j < cells@.len() ==> #[trigger] cs[j] == cells@[j]@,
            first_non_symbol(cs.take(i as int)) is None,
        decreases cells@.len() - i,
    {
        proof {
            let next = cs.take(i + 1);
            assert(next.drop_last() =~= cs.take(i as int));
            assert(next.last() == cs[i as int]);
        }
        match &*cells[i] {
            Lval::Sym(_) => {},
            _ => {
                proof {
                    lemma_non_symbol_found(cs, i + 1);
                }
                return Some(&cells[i]);
            },
        }
        i += 1;
    }
    assert(cs.take(i as int) =~= cs);
    None
}

/// The first cell that is no symbol, once found in a prefix, is the one found in the whole.
proof fn lemma_non_symbol_found(cs: Seq<Value>, k: int)
    requires
        0 <= k <= cs.len(),
        first_non_symbol(cs.take(k)) is Some,
    ensures
        first_non_symbol(cs) == first_non_symbol(cs.take(k)),
    decreases cs.len() - k,
{
    if k == cs.len() {
        assert(cs.take(k) =~= cs);
    } else {
        let next = cs.take(k + 1);
        assert(next.drop_last() =~= cs.take(k));
        lemma_non_symbol_found(cs, k + 1);
    }
}

/// The function whose parameters and body are the two arguments, both Q-expressions.
pub fn builtin_lambda(v: &mut Lval) -> (r: BlisprResult)
    ensures
        outcome_of(r) == lambda_of(old(v)@),
        *final(v) == *old(v),
{
    let cells = match cells_in(v) {
        Ok(cells) => cells,
        Err(e) => {
            return Err(e);
        },
    };
    proof {
        lemma_cells_of(*cells);
    }
    let child_count = cells.len();
    if child_count != 2 {
        return Err(Error::NumArguments(2, child_count));
    }
    let formals = &cells[0];
    let body = &cells[1];
    match &**formals {
        Lval::Qexpr(contents) => {
            match find_non_symbol(contents) {
                Some(cell) => {
                    return Err(wrong_kind("Symbol", cell));
                },
                None => {},
            }
            match &**body {
                Lval::Qexpr(_) => Ok(
                    lambda(
                        LEnvLookup::new(),
                        Box::new((**formals).clone()),
                        Box::new((**body).clone()),
                    ),
                ),
                other => Err(wrong_kind("Q-Expression", other)),
            }
        },
        other => Err(wrong_kind("Q-Expression", other)),
    }
}

/// Stands in the table for `def` and `=`, which the evaluator runs itself.
pub fn builtin_put_stub(_v: &mut Lval) -> (r: BlisprResult)
    ensures
        outcome_of(r) == Ok::<Value, Failure>(Value::Sexpr(Seq::empty())),
        *final(_v) == *old(_v),
{
    Ok(sexpr())
}

/// Stands in the table for `eval`, which the evaluator runs itself.
pub fn builtin_eval_stub(_v: &mut Lval) -> (r: BlisprResult)
    ensures
        outcome_of(r) == Ok::<Value, Failure>(Value::Sexpr(Seq::empty())),
        *final(_v) == *old(_v),
{
    Ok(sexpr())
}

/// Stands in the table for `printenv`, which the evaluator runs itself.
pub fn builtin_printenv_stub(_v: &mut Lval) -> (r: BlisprResult)
    ensures
        outcome_of(r) == Ok::<Value, Failure>(Value::Sexpr(Seq::empty())),
        *final(_v) == *old(_v),
{
    Ok(sexpr())
}

/// Asks for the session to end: the caller that runs the session sees `Error::Exit`.
pub fn builtin_exit(_v: &mut Lval) -> (r: BlisprResult)
    ensures
        outcome_of(r) == Err::<Value, Failure>(Failure::Exit),
        *final(_v) == *old(_v),
{
    Err(Error::Exit)
}

/// How many evaluations of lists may be nested inside one another when no limit is given.
pub const MAX_DEPTH: usize = 200;

/// Once a name that is no symbol has stopped the binding, nothing more is bound.
proof fn lemma_bind_fails(
    scopes: Scopes,
    names: Seq<Value>,
    vals: Seq<Value>,
    k: int,
    n: int,
    root: bool,
)
    requires
        0 <= k <= n,
        bind_names(scopes, names, vals, k, root).result is Err,
    ensures
        bind_names(scopes, names, vals, n, root) == bind_names(scopes, names, vals, k, root),
    decreases n - k,
{
    if k < n {
        lemma_bind_fails(scopes, names, vals, k, n - 1, root);
    }
}

/// Binds each symbol of the first argument to the argument that matches it: in the root of
/// the chain where `func` is `def`, in the scope itself otherwise.
pub fn builtin_var(e: &mut Lenv, a: &mut Lval, func: &str) -> (r: BlisprResult)
    ensures
        outcome_of(r) == var_of(old(e)@, old(a)@, func@ == "def"@).result,
        final(e)@ == var_of(old(e)@, old(a)@, func@ == "def"@).scopes,
        final(e)@.len() == old(e)@.len(),
        *final(a) == *old(a),
{
    proof {
        e.lemma_scopes();
    }
    let root = same_text(func, "def");
    let first = match first_of(a) {
        Ok(first) => first,
        Err(err) => {
            return Err(err);
        },
    };
    let names = match &**first {
        Lval::Qexpr(names) => names,
        other => {
            return Err(wrong_kind("qexpr", other));
        },
    };
    let cells = match cells_in(a) {
        Ok(cells) => cells,
        Err(err) => {
            return Err(err);
        },
    };
    proof {
        lemma_cells_of(*cells);
        lemma_cells_of(*names);
    }
    let names_len = names.len();
    let vals_len = cells.len() - 1;
    let ghost start = e@;
    let ghost ns = cells_of(*names);
    let ghost vs = cells_of(*cells).drop_first();
    if vals_len != names_len {
        return Err(Error::NumArguments(names_len, vals_len));
    }
    let mut k: usize = 0;
    while k < names_len
        invariant
            k <= names_len,
            names_len == names@.len(),
            cells@.len() == names_len + 1,
            ns == cells_of(*names),
            vs == cells_of(*cells).drop_first(),
            ns.len() == names_len,
            vs.len() == names_len,
            forall|j: int| 0 <= j < names@.len() ==> #[trigger] ns[j] == names@[j]@,
            forall|j: int| 0 <= j < names@.len() ==> #[trigger] vs[j] == cells@[j + 1]@,
            start == old(e)@,
            root == (func@ == "def"@),
            var_of(start, old(a)@, root) == bind_names(start, ns, vs, names_len as int, root),
            bind_names(start, ns, vs, k as int, root) == (Outcome {
                result: Ok(Value::Sexpr(Seq::empty())),
                scopes: e@,
            }),
            e@.len() == start.len(),
            e@.len() >= 1,
        decreases names_len - k,
    {
        let name = match names[k].as_string() {
            Ok(name) => name,
            Err(err) => {
                proof {
                    assert(ns[k as int] == names@[k as int]@);
                    lemma_bind_fails(start, ns, vs, k + 1, names_len as int, root);
                }
                return Err(err);
            },
        };
        proof {
            assert(ns[k as int] == names@[k as int]@);
            assert(vs[k as int] == cells@[k + 1]@);
        }
        let value = Box::new((*cells[k + 1]).clone());
        if root {
            e.def(name, value);
        } else {
            e.put(name, value);
        }
        k += 1;
    }
    Ok(sexpr())
}

/// Binds each symbol of the first argument to the argument that matches it, in the root.
pub fn builtin_def(e: &mut Lenv, v: &mut Lval) -> (r: BlisprResult)
    ensures
        outcome_of(r) == var_of(old(e)@, old(v)@, true).result,
        final(e)@ == var_of(old(e)@, old(v)@, true).scopes,
        final(e)@.len() == old(e)@.len(),
        *final(v) == *old(v),
{
    builtin_var(e, v, "def")
}

/// Binds each symbol of the first argument to the argument that matches it, in the scope
/// that the call is made in.
pub fn builtin_put(e: &mut Lenv, v: &mut Lval) -> (r: BlisprResult)
    ensures
        outcome_of(r) == var_of(old(e)@, old(v)@, false).result,
        final(e)@ == var_of(old(e)@, old(v)@, false).scopes,
        final(e)@.len() == old(e)@.len(),
        *final(v) == *old(v),
{
    proof {
        reveal_strlit("def");
        reveal_strlit("=");
        assert("="@.len() == 1 && "def"@.len() == 3);
    }
    builtin_var(e, v, "=")
}

/// The bindings of the scope that the call is made in, as a Q-expression of symbols.
pub fn builtin_printenv(e: &mut Lenv) -> (r: BlisprResult)
    ensures
        outcome_of(r) == Ok::<Value, Failure>(listing(old(e)@[0])),
        *final(e) == *old(e),
{
    e.list_all()
}

/// What a builtin gives that needs no environment.
fn call_pure(op: LBuiltin, args: &mut Lval) -> (r: BlisprResult)
    ensures
        outcome_of(r) == pure_of(op, old(args)@),
        *final(args) == *old(args),
{
    proof {
        lemma_arith_names();
    }
    match op {
        LBuiltin::Add => builtin_add(args),
        LBuiltin::Sub => builtin_sub(args),
        LBuiltin::Mul => builtin_mul(args),
        LBuiltin::Div => builtin_div(args),
        LBuiltin::Rem => builtin_rem(args),
        LBuiltin::Pow => builtin_pow(args),
        LBuiltin::Max => builtin_max(args),
        LBuiltin::Min => builtin_min(args),
        LBuiltin::Lambda => builtin_lambda(args),
        LBuiltin::PutStub => builtin_put_stub(args),
        LBuiltin::Cons => builtin_cons(args),
        LBuiltin::EvalStub => builtin_eval_stub(args),
        LBuiltin::Head => builtin_head(args),
        LBuiltin::Init => builtin_init(args),
        LBuiltin::List => builtin_list(args),
        LBuiltin::Join => builtin_join(args),
        LBuiltin::Len => builtin_len(args),
        LBuiltin::Tail => builtin_tail(args),
        LBuiltin::Exit => builtin_exit(args),
        LBuiltin::PrintenvStub => builtin_printenv_stub(args),
    }
}

/// A container of the kind of `v` whose cells are copies of the cells of `v` from `from` on.
fn rest_of(v: &Lval, from: usize) -> (r: Box<Lval>)
    requires
        v@.cells() matches Some(cs) && from <= cs.len(),
    ensures
        r@ == v@.with_cells(v@.cells()->0.skip(from as int)),
{
    match v {
        Lval::Sexpr(cells) => {
            proof {
                lemma_cells_of(*cells);
            }
            let out = copy_range(cells, from, cells.len());
            Box::new(Lval::Sexpr(out))
        },
        Lval::Qexpr(cells) => {
            proof {
                lemma_cells_of(*cells);
            }
            let out = copy_range(cells, from, cells.len());
            Box::new(Lval::Qexpr(out))
        },
        Lval::Blispr(cells) => {
            proof {
                lemma_cells_of(*cells);
            }
            let out = copy_range(cells, from, cells.len());
            Box::new(Lval::Blispr(out))
        },
        _ => Box::new(v.clone()),
    }
}

/// Once the evaluation of a prefix has failed, the evaluation of the whole fails in the
/// same way.
proof fn lemma_cells_fail(scopes: Scopes, cells: Seq<Value>, k: int, depth: nat)
    requires
        0 <= k <= cells.len(),
        eval_cells_of(scopes, cells.take(k), depth).result is Err,
    ensures
        eval_cells_of(scopes, cells, depth) == eval_cells_of(scopes, cells.take(k), depth),
    decreases cells.len() - k,
{
    if k == cells.len() {
        assert(cells.take(k) =~= cells);
    } else {
        let next = cells.take(k + 1);
        assert(next.drop_last() =~= cells.take(k));
        lemma_cells_fail(scopes, cells, k + 1, depth);
    }
}

/// Evaluates `cells` from the left and gives the results in order; the first failure ends it.
fn eval_cells(e: &mut Lenv, cells: &Vec<Box<Lval>>, depth: usize) -> (r: Result<
    Vec<Box<Lval>>,
    Error,
>)
    ensures
        eval_cells_of(old(e)@, cells_of(*cells), depth as nat).result matches Ok(rs) ==> (r matches Ok(
            out,
        ) && cells_of(out) == rs && out@.len() == cells@.len()),
        eval_cells_of(old(e)@, cells_of(*cells), depth as nat).result matches Err(f) ==> (r matches Err(
            err,
        ) && err@ == f),
        final(e)@ == eval_cells_of(old(e)@, cells_of(*cells), depth as nat).scopes,
        final(e)@.len() == old(e)@.len(),
    decreases depth, 3nat, cells@.len(),
{
    proof {
        lemma_cells_of(*cells);
    }
    let ghost start = e@;
    let ghost cs = cells_of(*cells);
    let mut out: Vec<Box<Lval>> = Vec::new();
    let mut i: usize = 0;
    proof {
        lemma_cells_of(out);
        assert(cs.take(0) =~= Seq::<Value>::empty());
        assert(cells_of(out) =~= Seq::<Value>::empty());
    }
    while i < cells.len()
        invariant
            i <= cells@.len(),
            start == old(e)@,
            cs == cells_of(*cells),
            cs.len() == cells@.len(),
            forall|j: int| 0 <= j < cells@.len() ==> #[trigger] cs[j] == cells@[j]@,
            out@.len() == i,
            eval_cells_of(start, cs.take(i as int), depth as nat) == (CellsOutcome {
                result: Ok(cells_of(out)),
                scopes: e@,
            }),
            e@.len() == start.len(),
        decreases cells@.len() - i,
    {
        proof {
            let next = cs.take(i + 1);
            assert(next.drop_last() =~= cs.take(i as int));
            assert(next.last() == cs[i as int]);
        }
        let mut cell = (*cells[i]).clone();
        match lval_eval_within(e, &mut cell, depth) {
            Ok(x) => {
                let ghost before = cells_of(out);
                proof {
                    lemma_cells_of(out);
                }
                out.push(x);
                proof {
                    lemma_cells_of(out);
                    assert(cells_of(out) =~= before.push(x@));
                }
            },
            Err(err) => {
                proof {
                    lemma_cells_fail(start, cs, i + 1, depth as nat);
                }
                return Err(err);
            },
        }
        i += 1;
    }
    assert(cs.take(i as int) =~= cs);
    Ok(out)
}

/// Evaluates `v` in `e`, nesting at most `depth` evaluations of lists inside one another.
pub fn lval_eval_within(e: &mut Lenv, v: &mut Lval, depth: usize) -> (r: BlisprResult)
    ensures
        outcome_of(r) == eval_of(old(e)@, old(v)@, depth as nat).result,
        final(e)@ == eval_of(old(e)@, old(v)@, depth as nat).scopes,
        final(e)@.len() == old(e)@.len(),
        *final(v) == *old(v),
    decreases depth, 0nat, 0nat,
{
    match &*v {
        Lval::Blispr(forms) => {
            proof {
                lemma_cells_of(*forms);
            }
            if forms.len() == 0 {
                return Ok(Box::new(v.clone()));
            }
            if depth == 0 {
                return Err(Error::DepthExceeded);
            }
            let mut results = match eval_cells(e, forms, depth - 1) {
                Ok(results) => results,
                Err(err) => {
                    return Err(err);
                },
            };
            proof {
                lemma_cells_of(results);
            }
            let last = results.remove(results.len() - 1);
            Ok(last)
        },
        Lval::Sym(s) => e.get(s.as_str()),
        Lval::Sexpr(cells) => {
            proof {
                lemma_cells_of(*cells);
            }
            if cells.len() == 0 {
                return Ok(Box::new(v.clone()));
            }
            if depth == 0 {
                return Err(Error::DepthExceeded);
            }
            let mut results = match eval_cells(e, cells, depth - 1) {
                Ok(results) => results,
                Err(err) => {
                    return Err(err);
                },
            };
            proof {
                lemma_cells_of(results);
            }
            let ghost rs = cells_of(results);
            if results.len() == 1 {
                let only = results.remove(0);
                Ok(only)
            } else {
                let fp = results.remove(0);
                proof {
                    lemma_cells_of(results);
                    assert(cells_of(results) =~= rs.drop_first());
                }
                let mut args_eval = Lval::Sexpr(results);
                lval_call_within(e, *fp, &mut args_eval, depth - 1)
            }
        },
        _ => Ok(Box::new(v.clone())),
    }
}

/// Evaluates the first argument, a Q-expression, as an S-expression; with another first
/// argument, evaluates the argument list as it stands.
pub fn builtin_eval_within(e: &mut Lenv, v: &mut Lval, depth: usize) -> (r: BlisprResult)
    ensures
        outcome_of(r) == eval_builtin_of(old(e)@, old(v)@, depth as nat).result,
        final(e)@ == eval_builtin_of(old(e)@, old(v)@, depth as nat).scopes,
        final(e)@.len() == old(e)@.len(),
        *final(v) == *old(v),
    decreases depth, 1nat, 0nat,
{
    let quoted = match first_of(v) {
        Ok(first) => match &**first {
            Lval::Qexpr(children) => Some(clone_cells(children)),
            _ => None,
        },
        Err(err) => {
            return Err(err);
        },
    };
    match quoted {
        Some(children) => {
            let mut new_sexpr = Lval::Sexpr(children);
            lval_eval_within(e, &mut new_sexpr, depth)
        },
        None => lval_eval_within(e, v, depth),
    }
}

/// Calls the function `f` on the argument list `args`, nesting at most `depth` evaluations
/// of lists inside one another.
pub fn lval_call_within(e: &mut Lenv, f: Lval, args: &mut Lval, depth: usize) -> (r: BlisprResult)
    ensures
        outcome_of(r) == apply_of(old(e)@, f@, old(args)@, depth as nat).result,
        final(e)@ == apply_of(old(e)@, f@, old(args)@, depth as nat).scopes,
        final(e)@.len() == old(e)@.len(),
        *final(args) == *old(args),
    decreases depth, 2nat, 0nat,
{
    proof {
        e.lemma_scopes();
    }
    match f {
        Lval::Fun(Func::Builtin(name, op)) => {
            if same_text(name.as_str(), "eval") {
                builtin_eval_within(e, args, depth)
            } else if same_text(name.as_str(), "def") {
                builtin_def(e, args)
            } else if same_text(name.as_str(), "=") {
                builtin_put(e, args)
            } else if same_text(name.as_str(), "printenv") {
                builtin_printenv(e)
            } else {
                call_pure(op, args)
            }
        },
        Lval::Fun(Func::Lambda(env, formals, body)) => {
            let given_cells = match cells_in(args) {
                Ok(cells) => cells,
                Err(err) => {
                    return Err(err);
                },
            };
            let formal_cells = match cells_in(&formals) {
                Ok(cells) => cells,
                Err(err) => {
                    return Err(err);
                },
            };
            proof {
                lemma_cells_of(*given_cells);
                lemma_cells_of(*formal_cells);
            }
            let given = given_cells.len();
            let total = formal_cells.len();
            let ghost fs = cells_of(*formal_cells);
            let ghost gs = cells_of(*given_cells);
            let ghost goal = bind_formals(fs, gs, Map::empty(), total, given);
            let mut new_env = LEnvLookup::new();
            let mut fi: usize = 0;
            let mut ai: usize = 0;
            let mut done = false;
            proof {
                assert(fs.skip(0) =~= fs);
                assert(gs.skip(0) =~= gs);
            }
            while ai < given && !done
                invariant
                    fi <= total,
                    ai <= given,
                    total == formal_cells@.len(),
                    given == given_cells@.len(),
                    fs == cells_of(*formal_cells),
                    gs == cells_of(*given_cells),
                    fs.len() == total,
                    gs.len() == given,
                    forall|j: int| 0 <= j < formal_cells@.len() ==> #[trigger] fs[j] == formal_cells@[j]@,
                    forall|j: int| 0 <= j < given_cells@.len() ==> #[trigger] gs[j] == given_cells@[j]@,
                    goal == bind_formals(fs, gs, Map::empty(), total, given),
                    f@ == Value::Lambda(lookup_bindings(env), Box::new(formals@), Box::new(body@)),
                    formals@.cells() == Some(fs),
                    args@.cells() == Some(gs),
                    *args == *old(args),
                    *e == *old(e),
                    !done ==> goal == bind_formals(
                        fs.skip(fi as int),
                        gs.skip(ai as int),
                        lookup_bindings(new_env),
                        total,
                        given,
                    ),
                    done ==> fi == total && goal == Ok::<Bound, Failure>(
                        Bound { formals: Seq::empty(), fresh: lookup_bindings(new_env) },
                    ),
                decreases given - ai + (if done { 0int } else { 1int }),
            {
                if fi >= total {
                    return Err(Error::NumArguments(total, given));
                }
                proof {
                    assert(fs.skip(fi as int)[0] == fs[fi as int]);
                    assert(gs.skip(ai as int)[0] == gs[ai as int]);
                    assert(fs.skip(fi as int).drop_first() =~= fs.skip(fi + 1));
                    assert(gs.skip(ai as int).drop_first() =~= gs.skip(ai + 1));
                }
                let name = match formal_cells[fi].as_string() {
                    Ok(name) => name,
                    Err(err) => {
                        return Err(err);
                    },
                };
                if same_text(name.as_str(), "&") {
                    if total - fi != 2 {
                        return Err(Error::FunctionFormat);
                    }
                    proof {
                        assert(fs.skip(fi as int)[1] == fs[fi + 1]);
                    }
                    let rest_name = match formal_cells[fi + 1].as_string() {
                        Ok(name) => name,
                        Err(err) => {
                            return Err(err);
                        },
                    };
                    let arglist = qexpr_of_range(given_cells, ai, given);
                    proof {
                        assert(gs.subrange(ai as int, given as int) =~= gs.skip(ai as int));
                    }
                    new_env.insert(rest_name, arglist);
                    fi = total;
                    done = true;
                } else {
                    new_env.insert(name, Box::new((*given_cells[ai]).clone()));
                    fi += 1;
                    ai += 1;
                }
            }
            proof {
                if !done {
                    assert(gs.skip(ai as int).len() == 0);
                }
            }
            let mut local = env;
            local.extend(new_env);
            if fi == total {
                proof {
                    assert(fs.skip(fi as int) =~= Seq::<Value>::empty());
                }
                e.enter(local);
                let mut cells: Vec<Box<Lval>> = Vec::new();
                cells.push(body);
                proof {
                    lemma_cells_of(cells);
                    assert(cells_of(cells) =~= seq![body@]);
                }
                let mut ret = Lval::Sexpr(cells);
                let r = builtin_eval_within(e, &mut ret, depth);
                e.leave();
                r
            } else {
                let rest = rest_of(&formals, fi);
                Ok(lambda(local, rest, body))
            }
        },
        other => Err(wrong_kind("Function", &other)),
    }
}

/// Evaluates `v` in `e`.
pub fn lval_eval(e: &mut Lenv, v: &mut Lval) -> (r: BlisprResult)
    ensures
        outcome_of(r) == eval_of(old(e)@, old(v)@, MAX_DEPTH as nat).result,
        final(e)@ == eval_of(old(e)@, old(v)@, MAX_DEPTH as nat).scopes,
        final(e)@.len() == old(e)@.len(),
        *final(v) == *old(v),
{
    lval_eval_within(e, v, MAX_DEPTH)
}

/// Calls the function `f` on the argument list `args`.
pub fn lval_call(e: &mut Lenv, f: Lval, args: &mut Lval) -> (r: BlisprResult)
    ensures
        outcome_of(r) == apply_of(old(e)@, f@, old(args)@, MAX_DEPTH as nat).result,
        final(e)@ == apply_of(old(e)@, f@, old(args)@, MAX_DEPTH as nat).scopes,
        final(e)@.len() == old(e)@.len(),
        *final(args) == *old(args),
{
    lval_call_within(e, f, args, MAX_DEPTH)
}

/// Evaluates the first argument, a Q-expression, as an S-expression.
pub fn builtin_eval(e: &mut Lenv, v: &mut Lval) -> (r: BlisprResult)
    ensures
        outcome_of(r) == eval_builtin_of(old(e)@, old(v)@, MAX_DEPTH as nat).result,
        final(e)@ == eval_builtin_of(old(e)@, old(v)@, MAX_DEPTH as nat).scopes,
        final(e)@.len() == old(e)@.len(),
        *final(v) == *old(v),
{
    builtin_eval_within(e, v, MAX_DEPTH)
}

} // verus!
