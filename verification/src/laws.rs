use crate::error::Failure;
use crate::lval::{LBuiltin, Value};
use crate::semantics::{
    apply_of, arith_fold, arith_of, arith_step, bind_formals, bind_names, cons_of, count_of,
    eval_builtin_of, eval_cells_of, eval_of, first_arg, first_non_symbol, head_of, is_arith,
    lambda_of, pure_of, scopes_def, scopes_get, scopes_put, tail_of, var_of, with_builtins,
    Bindings, Bound, CellsOutcome, Outcome, Scopes,
};
use vstd::prelude::*;

verus! {

/// Whether evaluation leaves `v` as it is: `v` is no symbol and no list with anything to
/// evaluate.
pub open spec fn self_evaluating(v: Value) -> bool {
    match v {
        Value::Sym(_) => false,
        Value::Sexpr(cells) => cells.len() == 0,
        Value::Blispr(forms) => forms.len() == 0,
        _ => true,
    }
}

/// A value that evaluation leaves as it is evaluates to itself, in any scopes and within any
/// depth, and leaves the scopes as they were.
pub proof fn lemma_self_evaluating(scopes: Scopes, v: Value, depth: nat)
    requires
        self_evaluating(v),
    ensures
        eval_of(scopes, v, depth) == (Outcome { result: Ok(v), scopes }),
{
}

/// Evaluating twice gives what evaluating once gives: where the evaluation of `v` succeeds
/// without changing the scopes, and its result is a value that evaluation leaves as it is,
/// evaluating that result gives the same outcome again.
pub proof fn lemma_eval_idempotent(scopes: Scopes, v: Value, depth: nat)
    requires
        eval_of(scopes, v, depth).result is Ok,
        eval_of(scopes, v, depth).scopes == scopes,
        self_evaluating(eval_of(scopes, v, depth).result->Ok_0),
    ensures
        eval_of(scopes, eval_of(scopes, v, depth).result->Ok_0, depth) == eval_of(scopes, v, depth),
{
    lemma_self_evaluating(scopes, eval_of(scopes, v, depth).result->Ok_0, depth);
}

/// The length of a list of `k` elements is `k`.
pub proof fn lemma_len_counts(q: Seq<Value>)
    requires
        q.len() <= i64::MAX,
    ensures
        count_of(Value::Sexpr(seq![Value::Qexpr(q)])) == Ok::<Value, Failure>(
            Value::Num(q.len() as i64),
        ),
        (q.len() as i64) as int == q.len(),
{
}

/// The head of `cons(h, t)` is `h`, and its tail is `t`.
pub proof fn lemma_cons_head_tail(h: Value, t: Seq<Value>)
    ensures
        cons_of(Value::Sexpr(seq![h, Value::Qexpr(t)])) == Ok::<Value, Failure>(
            Value::Qexpr(seq![h] + t),
        ),
        head_of(Value::Sexpr(seq![Value::Qexpr(seq![h] + t)])) == Ok::<Value, Failure>(h),
        tail_of(Value::Sexpr(seq![Value::Qexpr(seq![h] + t)])) == Ok::<Value, Failure>(
            Value::Qexpr(t),
        ),
{
    assert((seq![h] + t).drop_first() =~= t);
}

/// Arithmetic is a fold from the left: an operation on three arguments or more gives what it
/// gives on two, the first of them its own result on all arguments but the last, the second
/// the last argument; and it fails as that first step fails.
pub proof fn lemma_arith_left_fold(op: LBuiltin, cs: Seq<Value>)
    requires
        is_arith(op),
        cs.len() >= 3,
    ensures
        arith_of(op, Value::Sexpr(cs)) == (match arith_of(op, Value::Sexpr(cs.drop_last())) {
            Ok(x) => arith_of(op, Value::Sexpr(seq![x, cs.last()])),
            Err(e) => Err(e),
        }),
{
    match arith_fold(op, cs.drop_last()) {
        Ok(x) => {
            let pair = seq![x, cs.last()];
            assert(pair.drop_last() =~= seq![x]);
            assert(arith_fold(op, pair.drop_last()) == Ok::<Value, Failure>(x));
            assert(arith_fold(op, pair) == arith_step(op, x, cs.last()));
        },
        Err(_) => {},
    }
}

/// On four arguments, `(op a b c d)` is `(op (op (op a b) c) d)` wherever the two steps in
/// between succeed.
pub proof fn lemma_arith_four(op: LBuiltin, a: Value, b: Value, c: Value, d: Value)
    requires
        is_arith(op),
        arith_of(op, Value::Sexpr(seq![a, b])) is Ok,
        arith_of(
            op,
            Value::Sexpr(seq![arith_of(op, Value::Sexpr(seq![a, b]))->Ok_0, c]),
        ) is Ok,
    ensures
        arith_of(op, Value::Sexpr(seq![a, b, c, d])) == arith_of(
            op,
            Value::Sexpr(
                seq![
                    arith_of(
                        op,
                        Value::Sexpr(seq![arith_of(op, Value::Sexpr(seq![a, b]))->Ok_0, c]),
                    )->Ok_0,
                    d,
                ],
            ),
        ),
{
    let four = seq![a, b, c, d];
    let three = seq![a, b, c];
    let two = seq![a, b];
    assert(four.drop_last() =~= three);
    assert(three.drop_last() =~= two);
    lemma_arith_left_fold(op, four);
    lemma_arith_left_fold(op, three);
}

/// Subtraction with one argument gives the negation of that argument.
pub proof fn lemma_unary_negation(a: i64)
    ensures
        a != i64::MIN ==> arith_of(LBuiltin::Sub, Value::Sexpr(seq![Value::Num(a)])) == Ok::<
            Value,
            Failure,
        >(Value::Num((-a) as i64)),
        arith_of(LBuiltin::Sub, Value::Sexpr(seq![Value::Num(i64::MIN)])) == Ok::<Value, Failure>(
            Value::Num(i64::MIN),
        ),
{
}

/// Division and remainder by zero fail with `DivideByZero`, whatever is divided.
pub proof fn lemma_divide_by_zero(x: Value)
    ensures
        arith_of(LBuiltin::Div, Value::Sexpr(seq![x, Value::Num(0)])) == Err::<Value, Failure>(
            Failure::DivideByZero,
        ),
        arith_of(LBuiltin::Rem, Value::Sexpr(seq![x, Value::Num(0)])) == Err::<Value, Failure>(
            Failure::DivideByZero,
        ),
{
    let pair = seq![x, Value::Num(0)];
    assert(pair.drop_last() =~= seq![x]);
    assert(arith_fold(LBuiltin::Div, pair.drop_last()) == Ok::<Value, Failure>(x));
    assert(arith_fold(LBuiltin::Rem, pair.drop_last()) == Ok::<Value, Failure>(x));
}

/// The head of the empty list fails with `EmptyList`, and so does its tail.
pub proof fn lemma_head_of_empty()
    ensures
        head_of(Value::Sexpr(seq![Value::Qexpr(Seq::empty())])) == Err::<Value, Failure>(
            Failure::EmptyList,
        ),
        tail_of(Value::Sexpr(seq![Value::Qexpr(Seq::empty())])) == Err::<Value, Failure>(
            Failure::EmptyList,
        ),
{
}

/// A definition with as many symbols as `names` holds and another number of values fails
/// with `NumArguments` of the two numbers, and binds nothing.
pub proof fn lemma_def_arity(scopes: Scopes, names: Seq<Value>, vals: Seq<Value>, root: bool)
    requires
        names.len() != vals.len(),
    ensures
        var_of(scopes, Value::Sexpr(seq![Value::Qexpr(names)] + vals), root) == (Outcome {
            result: Err(Failure::NumArguments(names.len() as usize, vals.len() as usize)),
            scopes,
        }),
{
    let args = seq![Value::Qexpr(names)] + vals;
    assert(args.drop_first() =~= vals);
}

/// Whether every one of `formals` is a symbol other than `&`.
pub open spec fn plain_formals(formals: Seq<Value>) -> bool {
    forall|i: int|
        0 <= i < formals.len() ==> (#[trigger] formals[i]) is Sym && formals[i]->Sym_0 != "&"@
}

/// Binding more arguments than there are parameters fails with `NumArguments`.
pub proof fn lemma_bind_too_many(
    formals: Seq<Value>,
    args: Seq<Value>,
    fresh: Bindings,
    total: usize,
    given: usize,
)
    requires
        plain_formals(formals),
        args.len() > formals.len(),
    ensures
        bind_formals(formals, args, fresh, total, given) == Err::<
            crate::semantics::Bound,
            Failure,
        >(Failure::NumArguments(total, given)),
    decreases formals.len(),
{
    if formals.len() > 0 {
        let name = formals[0]->Sym_0;
        assert forall|i: int| 0 <= i < formals.drop_first().len() implies (
        #[trigger] formals.drop_first()[i]) is Sym && formals.drop_first()[i]->Sym_0 != "&"@ by {
            assert(formals.drop_first()[i] == formals[i + 1]);
        }
        lemma_bind_too_many(
            formals.drop_first(),
            args.drop_first(),
            fresh.insert(name, args[0]),
            total,
            given,
        );
    }
}

/// A function called with more arguments than it has parameters, none of them `&`, fails with
/// `NumArguments` of the number of its parameters and the number of the arguments, and leaves
/// the scopes as they were.
pub proof fn lemma_lambda_too_many(
    scopes: Scopes,
    captures: Bindings,
    formals: Seq<Value>,
    body: Value,
    args: Seq<Value>,
    depth: nat,
)
    requires
        plain_formals(formals),
        args.len() > formals.len(),
    ensures
        apply_of(
            scopes,
            Value::Lambda(captures, Box::new(Value::Qexpr(formals)), Box::new(body)),
            Value::Sexpr(args),
            depth,
        ) == (Outcome {
            result: Err(Failure::NumArguments(formals.len() as usize, args.len() as usize)),
            scopes,
        }),
{
    lemma_bind_too_many(
        formals,
        args,
        Map::empty(),
        formals.len() as usize,
        args.len() as usize,
    );
}

/// Whether `f` is a function as `\\` makes it: its parameters are a Q-expression of symbols,
/// and its body is a Q-expression.
pub open spec fn function_shape(f: Value) -> bool {
    match f {
        Value::Lambda(_, formals, body) => {
            &&& *formals matches Value::Qexpr(params) && (forall|i: int|
                0 <= i < params.len() ==> (#[trigger] params[i]) is Sym)
            &&& *body is Qexpr
        },
        _ => false,
    }
}

/// No cell of `cs` is found that is no symbol only where every cell of `cs` is a symbol.
pub proof fn lemma_all_symbols(cs: Seq<Value>)
    ensures
        first_non_symbol(cs) is None <==> (forall|i: int|
            0 <= i < cs.len() ==> (#[trigger] cs[i]) is Sym),
    decreases cs.len(),
{
    if cs.len() > 0 {
        let front = cs.drop_last();
        lemma_all_symbols(front);
        if first_non_symbol(cs) is None {
            assert forall|i: int| 0 <= i < cs.len() implies (#[trigger] cs[i]) is Sym by {
                if i < front.len() {
                    assert(front[i] == cs[i]);
                }
            }
        } else if first_non_symbol(front) is None {
            assert(!(cs.last() is Sym));
            assert(!(cs[cs.len() - 1] is Sym));
        } else {
            let i = choose|i: int| 0 <= i < front.len() && !((#[trigger] front[i]) is Sym);
            assert(front[i] == cs[i]);
        }
    }
}

/// What `\\` gives is a function with no bindings yet, with a Q-expression of symbols for
/// its parameters and a Q-expression for its body.
pub proof fn lemma_lambda_shape(args: Value)
    requires
        lambda_of(args) is Ok,
    ensures
        function_shape(lambda_of(args)->Ok_0),
        lambda_of(args)->Ok_0 matches Value::Lambda(captures, formals, body) && captures
            == Map::<Seq<char>, Value>::empty() && *formals == args.cells()->0[0] && *body
            == args.cells()->0[1],
{
    let cs = args.cells()->0;
    lemma_all_symbols(cs[0]->Qexpr_0);
}

/// A function called with fewer arguments than it has parameters gives a function of the
/// same shape: it holds the bindings that the first came with and the new ones, waits for the
/// parameters that are left, and has the same body. The scopes stay as they were.
pub proof fn lemma_partial_application(
    scopes: Scopes,
    captures: Bindings,
    formals: Seq<Value>,
    body: Value,
    args: Seq<Value>,
    depth: nat,
)
    requires
        function_shape(Value::Lambda(captures, Box::new(Value::Qexpr(formals)), Box::new(body))),
        bind_formals(
            formals,
            args,
            Map::empty(),
            formals.len() as usize,
            args.len() as usize,
        ) matches Ok(bound) && bound.formals.len() > 0,
    ensures
        ({
            let bound = bind_formals(
                formals,
                args,
                Map::empty(),
                formals.len() as usize,
                args.len() as usize,
            )->Ok_0;
            let waiting = Value::Lambda(
                captures.union_prefer_right(bound.fresh),
                Box::new(Value::Qexpr(bound.formals)),
                Box::new(body),
            );
            &&& apply_of(
                scopes,
                Value::Lambda(captures, Box::new(Value::Qexpr(formals)), Box::new(body)),
                Value::Sexpr(args),
                depth,
            ) == (Outcome { result: Ok(waiting), scopes })
            &&& function_shape(waiting)
        }),
{
    lemma_bound_formals(formals, args, Map::empty(), formals.len() as usize, args.len() as usize);
}

/// The parameters that binding leaves are some of the parameters that it was given.
proof fn lemma_bound_formals(
    formals: Seq<Value>,
    args: Seq<Value>,
    fresh: Bindings,
    total: usize,
    given: usize,
)
    requires
        bind_formals(formals, args, fresh, total, given) is Ok,
    ensures
        forall|i: int|
            0 <= i < bind_formals(formals, args, fresh, total, given)->Ok_0.formals.len() ==> exists|
                j: int,
            |
                0 <= j < formals.len() && formals[j] == #[trigger] bind_formals(
                    formals,
                    args,
                    fresh,
                    total,
                    given,
                )->Ok_0.formals[i],
    decreases args.len(),
{
    let bound = bind_formals(formals, args, fresh, total, given)->Ok_0;
    if args.len() == 0 {
        assert forall|i: int| 0 <= i < bound.formals.len() implies exists|j: int|
            0 <= j < formals.len() && formals[j] == #[trigger] bound.formals[i] by {
            assert(formals[i] == bound.formals[i]);
        }
    } else if formals.len() > 0 {
        match formals[0] {
            Value::Sym(name) => {
                if name != "&"@ {
                    let rest = formals.drop_first();
                    lemma_bound_formals(
                        rest,
                        args.drop_first(),
                        fresh.insert(name, args[0]),
                        total,
                        given,
                    );
                    assert forall|i: int| 0 <= i < bound.formals.len() implies exists|j: int|
                        0 <= j < formals.len() && formals[j] == #[trigger] bound.formals[i] by {
                        let j = choose|j: int| 0 <= j < rest.len() && rest[j] == bound.formals[i];
                        assert(formals[j + 1] == bound.formals[i]);
                    }
                }
            },
            _ => {},
        }
    }
}

/// A scope shadows the scopes around it: a name that it binds is found in it, and any other
/// name is looked up in the scopes around it.
pub proof fn lemma_shadowing(local: Bindings, outer: Scopes, name: Seq<char>)
    ensures
        local.contains_key(name) ==> scopes_get(seq![local] + outer, name) == Some(local[name]),
        !local.contains_key(name) ==> scopes_get(seq![local] + outer, name) == scopes_get(
            outer,
            name,
        ),
{
    assert((seq![local] + outer).drop_first() =~= outer);
}

/// What was put into the innermost scope is found under its name.
pub proof fn lemma_put_then_get(scopes: Scopes, name: Seq<char>, v: Value)
    requires
        scopes.len() >= 1,
    ensures
        scopes_get(scopes_put(scopes, name, v), name) == Some(v),
{
}

/// Whether no scope but the root binds `name`.
pub open spec fn unshadowed(scopes: Scopes, name: Seq<char>) -> bool {
    forall|i: int| 0 <= i < scopes.len() - 1 ==> !(#[trigger] scopes[i]).contains_key(name)
}

/// What was defined in the root is found under its name from every scope, unless a scope in
/// between binds the name itself.
pub proof fn lemma_def_then_get(scopes: Scopes, name: Seq<char>, v: Value)
    requires
        scopes.len() >= 1,
        unshadowed(scopes, name),
    ensures
        scopes_get(scopes_def(scopes, name, v), name) == Some(v),
    decreases scopes.len(),
{
    let after = scopes_def(scopes, name, v);
    if scopes.len() > 1 {
        let rest = scopes.drop_first();
        assert(!scopes[0].contains_key(name));
        assert(after[0] == scopes[0]);
        assert forall|i: int| 0 <= i < rest.len() - 1 implies !(#[trigger] rest[i]).contains_key(
            name,
        ) by {
            assert(rest[i] == scopes[i + 1]);
        }
        lemma_def_then_get(rest, name, v);
        assert(after.drop_first() =~= scopes_def(rest, name, v));
    }
}

/// A later definition of a name takes the place of an earlier one.
pub proof fn lemma_def_overwrites(scopes: Scopes, name: Seq<char>, a: Value, b: Value)
    requires
        scopes.len() >= 1,
    ensures
        scopes_def(scopes_def(scopes, name, a), name, b) == scopes_def(scopes, name, b),
{
    let once = scopes_def(scopes, name, a);
    assert(once.last().insert(name, b) =~= scopes.last().insert(name, b));
    assert(scopes_def(once, name, b) =~= scopes_def(scopes, name, b));
}

/// Binding names leaves the chain of scopes as long as it was.
pub proof fn lemma_bind_names_chain(
    scopes: Scopes,
    names: Seq<Value>,
    vals: Seq<Value>,
    k: int,
    root: bool,
)
    requires
        scopes.len() >= 1,
    ensures
        bind_names(scopes, names, vals, k, root).scopes.len() == scopes.len(),
    decreases k,
{
    if k > 0 {
        lemma_bind_names_chain(scopes, names, vals, k - 1, root);
    }
}

/// Evaluation leaves the chain of scopes as long as it found it: the scope of a call ends
/// with the call.
pub proof fn lemma_eval_chain(scopes: Scopes, v: Value, depth: nat)
    requires
        scopes.len() >= 1,
    ensures
        eval_of(scopes, v, depth).scopes.len() == scopes.len(),
    decreases depth, 0nat, 0nat,
{
    match v {
        Value::Blispr(forms) => {
            if forms.len() > 0 && depth > 0 {
                lemma_eval_cells_chain(scopes, forms, (depth - 1) as nat);
            }
        },
        Value::Sexpr(cells) => {
            if cells.len() > 0 && depth > 0 {
                lemma_eval_cells_chain(scopes, cells, (depth - 1) as nat);
                let done = eval_cells_of(scopes, cells, (depth - 1) as nat);
                if let Ok(results) = done.result {
                    if results.len() != 1 {
                        lemma_apply_chain(
                            done.scopes,
                            results[0],
                            Value::Sexpr(results.drop_first()),
                            (depth - 1) as nat,
                        );
                    }
                }
            }
        },
        _ => {},
    }
}

/// Evaluating cells one after the other leaves the chain of scopes as long as it was.
pub proof fn lemma_eval_cells_chain(scopes: Scopes, cells: Seq<Value>, depth: nat)
    requires
        scopes.len() >= 1,
    ensures
        eval_cells_of(scopes, cells, depth).scopes.len() == scopes.len(),
    decreases depth, 3nat, cells.len(),
{
    if cells.len() > 0 {
        lemma_eval_cells_chain(scopes, cells.drop_last(), depth);
        let front = eval_cells_of(scopes, cells.drop_last(), depth);
        if front.result is Ok {
            lemma_eval_chain(front.scopes, cells.last(), depth);
        }
    }
}

/// The builtin `eval` leaves the chain of scopes as long as it was.
pub proof fn lemma_eval_builtin_chain(scopes: Scopes, args: Value, depth: nat)
    requires
        scopes.len() >= 1,
    ensures
        eval_builtin_of(scopes, args, depth).scopes.len() == scopes.len(),
    decreases depth, 1nat, 0nat,
{
    match first_arg(args) {
        Ok(Value::Qexpr(q)) => {
            lemma_eval_chain(scopes, Value::Sexpr(q), depth);
        },
        Ok(_) => {
            lemma_eval_chain(scopes, args, depth);
        },
        Err(_) => {},
    }
}

/// A call leaves the chain of scopes as long as it was.
pub proof fn lemma_apply_chain(scopes: Scopes, f: Value, args: Value, depth: nat)
    requires
        scopes.len() >= 1,
    ensures
        apply_of(scopes, f, args, depth).scopes.len() == scopes.len(),
    decreases depth, 2nat, 0nat,
{
    match f {
        Value::Builtin(name, op) => {
            if name == "eval"@ {
                lemma_eval_builtin_chain(scopes, args, depth);
            } else if name == "def"@ || name == "="@ {
                let root = name == "def"@;
                if let Ok(Value::Qexpr(names)) = first_arg(args) {
                    let vals = args.cells()->0.drop_first();
                    lemma_bind_names_chain(scopes, names, vals, names.len() as int, root);
                }
            }
        },
        Value::Lambda(captures, formals, body) => {
            if let (Some(given), Some(params)) = (args.cells(), formals.cells()) {
                if let Ok(bound) = bind_formals(
                    params,
                    given,
                    Map::empty(),
                    params.len() as usize,
                    given.len() as usize,
                ) {
                    if bound.formals.len() == 0 {
                        let local = captures.union_prefer_right(bound.fresh);
                        lemma_eval_builtin_chain(
                            seq![local] + scopes,
                            Value::Sexpr(seq![*body]),
                            depth,
                        );
                    }
                }
            }
        },
        _ => {},
    }
}

/// The builtin that a root binds to `name`, if it binds one to it.
pub open spec fn builtin_named(name: Seq<char>) -> Option<LBuiltin> {
    if name == "max"@ {
        Some(LBuiltin::Max)
    } else if name == "min"@ {
        Some(LBuiltin::Min)
    } else if name == "rem"@ || name == "%"@ {
        Some(LBuiltin::Rem)
    } else if name == "pow"@ || name == "^"@ {
        Some(LBuiltin::Pow)
    } else if name == "div"@ || name == "/"@ {
        Some(LBuiltin::Div)
    } else if name == "mul"@ || name == "*"@ {
        Some(LBuiltin::Mul)
    } else if name == "sub"@ || name == "-"@ {
        Some(LBuiltin::Sub)
    } else if name == "add"@ || name == "+"@ {
        Some(LBuiltin::Add)
    } else if name == "printenv"@ {
        Some(LBuiltin::PrintenvStub)
    } else if name == "exit"@ {
        Some(LBuiltin::Exit)
    } else if name == "tail"@ {
        Some(LBuiltin::Tail)
    } else if name == "len"@ {
        Some(LBuiltin::Len)
    } else if name == "join"@ {
        Some(LBuiltin::Join)
    } else if name == "list"@ {
        Some(LBuiltin::List)
    } else if name == "init"@ {
        Some(LBuiltin::Init)
    } else if name == "head"@ {
        Some(LBuiltin::Head)
    } else if name == "eval"@ {
        Some(LBuiltin::EvalStub)
    } else if name == "cons"@ {
        Some(LBuiltin::Cons)
    } else if name == "="@ || name == "def"@ {
        Some(LBuiltin::PutStub)
    } else if name == "\\"@ {
        Some(LBuiltin::Lambda)
    } else {
        None
    }
}

/// A root binds the names of the builtins to the builtins, and every other name as the
/// bindings that it started from.
pub proof fn lemma_root_bindings(m: Bindings, name: Seq<char>)
    ensures
        with_builtins(m).contains_key(name) <==> builtin_named(name) is Some || m.contains_key(
            name,
        ),
        builtin_named(name) matches Some(op) ==> with_builtins(m)[name] == Value::Builtin(name, op),
        builtin_named(name) is None ==> with_builtins(m)[name] == m[name],
{
}

/// Each name of a builtin names the builtin that carries it.
pub proof fn lemma_builtin_names()
    ensures
        builtin_named("\\"@) == Some(LBuiltin::Lambda),
        builtin_named("def"@) == Some(LBuiltin::PutStub),
        builtin_named("="@) == Some(LBuiltin::PutStub),
        builtin_named("cons"@) == Some(LBuiltin::Cons),
        builtin_named("eval"@) == Some(LBuiltin::EvalStub),
        builtin_named("head"@) == Some(LBuiltin::Head),
        builtin_named("init"@) == Some(LBuiltin::Init),
        builtin_named("list"@) == Some(LBuiltin::List),
        builtin_named("join"@) == Some(LBuiltin::Join),
        builtin_named("len"@) == Some(LBuiltin::Len),
        builtin_named("tail"@) == Some(LBuiltin::Tail),
        builtin_named("exit"@) == Some(LBuiltin::Exit),
        builtin_named("printenv"@) == Some(LBuiltin::PrintenvStub),
        builtin_named("+"@) == Some(LBuiltin::Add),
        builtin_named("add"@) == Some(LBuiltin::Add),
        builtin_named("-"@) == Some(LBuiltin::Sub),
        builtin_named("sub"@) == Some(LBuiltin::Sub),
        builtin_named("*"@) == Some(LBuiltin::Mul),
        builtin_named("mul"@) == Some(LBuiltin::Mul),
        builtin_named("/"@) == Some(LBuiltin::Div),
        builtin_named("div"@) == Some(LBuiltin::Div),
        builtin_named("^"@) == Some(LBuiltin::Pow),
        builtin_named("pow"@) == Some(LBuiltin::Pow),
        builtin_named("%"@) == Some(LBuiltin::Rem),
        builtin_named("rem"@) == Some(LBuiltin::Rem),
        builtin_named("min"@) == Some(LBuiltin::Min),
        builtin_named("max"@) == Some(LBuiltin::Max),
{
    lemma_name_texts();
}

/// What the names of the builtins hold: enough of each to tell it from the others.
proof fn lemma_name_texts()
    ensures
        "\\"@.len() == 1 && "\\"@[0] == '\\',
        "="@.len() == 1 && "="@[0] == '=',
        "+"@.len() == 1 && "+"@[0] == '+',
        "-"@.len() == 1 && "-"@[0] == '-',
        "*"@.len() == 1 && "*"@[0] == '*',
        "/"@.len() == 1 && "/"@[0] == '/',
        "^"@.len() == 1 && "^"@[0] == '^',
        "%"@.len() == 1 && "%"@[0] == '%',
        "def"@.len() == 3 && "def"@[0] == 'd' && "def"@[1] == 'e',
        "div"@.len() == 3 && "div"@[0] == 'd' && "div"@[1] == 'i',
        "add"@.len() == 3 && "add"@[0] == 'a',
        "sub"@.len() == 3 && "sub"@[0] == 's',
        "mul"@.len() == 3 && "mul"@[0] == 'm' && "mul"@[1] == 'u',
        "min"@.len() == 3 && "min"@[0] == 'm' && "min"@[1] == 'i',
        "max"@.len() == 3 && "max"@[0] == 'm' && "max"@[1] == 'a',
        "pow"@.len() == 3 && "pow"@[0] == 'p',
        "rem"@.len() == 3 && "rem"@[0] == 'r',
        "len"@.len() == 3 && "len"@[0] == 'l',
        "cons"@.len() == 4 && "cons"@[0] == 'c',
        "eval"@.len() == 4 && "eval"@[0] == 'e' && "eval"@[1] == 'v',
        "exit"@.len() == 4 && "exit"@[0] == 'e' && "exit"@[1] == 'x',
        "head"@.len() == 4 && "head"@[0] == 'h',
        "init"@.len() == 4 && "init"@[0] == 'i',
        "list"@.len() == 4 && "list"@[0] == 'l',
        "join"@.len() == 4 && "join"@[0] == 'j',
        "tail"@.len() == 4 && "tail"@[0] == 't',
        "printenv"@.len() == 8,
{
    reveal_strlit("\\");
    reveal_strlit("=");
    reveal_strlit("+");
    reveal_strlit("-");
    reveal_strlit("*");
    reveal_strlit("/");
    reveal_strlit("^");
    reveal_strlit("%");
    reveal_strlit("def");
    reveal_strlit("div");
    reveal_strlit("add");
    reveal_strlit("sub");
    reveal_strlit("mul");
    reveal_strlit("min");
    reveal_strlit("max");
    reveal_strlit("pow");
    reveal_strlit("rem");
    reveal_strlit("len");
    reveal_strlit("cons");
    reveal_strlit("eval");
    reveal_strlit("exit");
    reveal_strlit("head");
    reveal_strlit("init");
    reveal_strlit("list");
    reveal_strlit("join");
    reveal_strlit("tail");
    reveal_strlit("printenv");
}

/// Whether the evaluator runs the builtin called `name` itself, with the environment.
pub open spec fn needs_environment(name: Seq<char>) -> bool {
    name == "eval"@ || name == "def"@ || name == "="@ || name == "printenv"@
}

/// Cells that evaluation leaves as they are evaluate, one after the other, to themselves.
pub proof fn lemma_eval_cells_fixed(scopes: Scopes, cells: Seq<Value>, depth: nat)
    requires
        forall|i: int| 0 <= i < cells.len() ==> self_evaluating(#[trigger] cells[i]),
    ensures
        eval_cells_of(scopes, cells, depth) == (CellsOutcome { result: Ok(cells), scopes }),
    decreases cells.len(),
{
    if cells.len() == 0 {
        assert(cells =~= Seq::<Value>::empty());
    } else {
        let front = cells.drop_last();
        assert forall|i: int| 0 <= i < front.len() implies self_evaluating(#[trigger] front[i]) by {
            assert(front[i] == cells[i]);
        }
        lemma_eval_cells_fixed(scopes, front, depth);
        assert(self_evaluating(cells.last()));
        lemma_self_evaluating(scopes, cells.last(), depth);
        assert(front.push(cells.last()) =~= cells);
    }
}

/// A symbol bound to a builtin, then arguments that evaluation leaves as they are: the list
/// evaluates to what the builtin gives for the arguments, and the scopes stay as they were.
pub proof fn lemma_call_builtin(
    scopes: Scopes,
    name: Seq<char>,
    op: LBuiltin,
    args: Seq<Value>,
    depth: nat,
)
    requires
        scopes_get(scopes, name) == Some(Value::Builtin(name, op)),
        !needs_environment(name),
        args.len() >= 1,
        forall|i: int| 0 <= i < args.len() ==> self_evaluating(#[trigger] args[i]),
        depth >= 1,
    ensures
        eval_of(scopes, Value::Sexpr(seq![Value::Sym(name)] + args), depth) == (Outcome {
            result: pure_of(op, Value::Sexpr(args)),
            scopes,
        }),
{
    let cells = seq![Value::Sym(name)] + args;
    let f = Value::Builtin(name, op);
    let results = seq![f] + args;
    let inner = (depth - 1) as nat;
    lemma_eval_cells_first(scopes, name, f, args, inner);
    assert(results.drop_first() =~= args);
    assert(results[0] == f);
}

/// A symbol, then cells that evaluation leaves as they are: evaluating them one after the
/// other gives what the symbol is bound to, then the cells.
proof fn lemma_eval_cells_first(
    scopes: Scopes,
    name: Seq<char>,
    bound: Value,
    rest: Seq<Value>,
    depth: nat,
)
    requires
        scopes_get(scopes, name) == Some(bound),
        forall|i: int| 0 <= i < rest.len() ==> self_evaluating(#[trigger] rest[i]),
    ensures
        eval_cells_of(scopes, seq![Value::Sym(name)] + rest, depth) == (CellsOutcome {
            result: Ok(seq![bound] + rest),
            scopes,
        }),
    decreases rest.len(),
{
    let cells = seq![Value::Sym(name)] + rest;
    if rest.len() == 0 {
        assert(cells.drop_last() =~= Seq::<Value>::empty());
        assert(cells.last() == Value::Sym(name));
        assert(eval_cells_of(scopes, cells.drop_last(), depth) == (CellsOutcome {
            result: Ok(Seq::empty()),
            scopes,
        }));
        assert(eval_of(scopes, Value::Sym(name), depth) == (Outcome { result: Ok(bound), scopes }));
        assert(Seq::<Value>::empty().push(bound) =~= seq![bound] + rest);
        assert(eval_cells_of(scopes, cells, depth).result == Ok::<Seq<Value>, Failure>(
            Seq::<Value>::empty().push(bound),
        ));
    } else {
        let front = rest.drop_last();
        assert forall|i: int| 0 <= i < front.len() implies self_evaluating(#[trigger] front[i]) by {
            assert(front[i] == rest[i]);
        }
        lemma_eval_cells_first(scopes, name, bound, front, depth);
        assert(cells.drop_last() =~= seq![Value::Sym(name)] + front);
        assert(cells.last() == rest.last());
        assert(self_evaluating(rest.last()));
        lemma_self_evaluating(scopes, rest.last(), depth);
        assert((seq![bound] + front).push(rest.last()) =~= seq![bound] + rest);
        assert(eval_cells_of(scopes, cells, depth).result == Ok::<Seq<Value>, Failure>(
            (seq![bound] + front).push(rest.last()),
        ));
    }
}

/// In a root, `(len {x1 … xk})` evaluates to `k`.
pub proof fn lemma_program_len(m: Bindings, q: Seq<Value>, depth: nat)
    requires
        q.len() <= i64::MAX,
        depth >= 1,
    ensures
        eval_of(
            seq![with_builtins(m)],
            Value::Sexpr(seq![Value::Sym("len"@), Value::Qexpr(q)]),
            depth,
        ) == (Outcome { result: Ok(Value::Num(q.len() as i64)), scopes: seq![with_builtins(m)] }),
{
    let scopes = seq![with_builtins(m)];
    lemma_name_texts();
    lemma_builtin_names();
    lemma_root_bindings(m, "len"@);
    let args = seq![Value::Qexpr(q)];
    assert(seq![Value::Sym("len"@)] + args =~= seq![Value::Sym("len"@), Value::Qexpr(q)]);
    lemma_call_builtin(scopes, "len"@, LBuiltin::Len, args, depth);
}

/// In a root, `(- a)` evaluates to the negation of `a`.
pub proof fn lemma_program_negation(m: Bindings, a: i64, depth: nat)
    requires
        a != i64::MIN,
        depth >= 1,
    ensures
        eval_of(
            seq![with_builtins(m)],
            Value::Sexpr(seq![Value::Sym("-"@), Value::Num(a)]),
            depth,
        ) == (Outcome { result: Ok(Value::Num((-a) as i64)), scopes: seq![with_builtins(m)] }),
{
    let scopes = seq![with_builtins(m)];
    lemma_name_texts();
    lemma_builtin_names();
    lemma_root_bindings(m, "-"@);
    let args = seq![Value::Num(a)];
    assert(seq![Value::Sym("-"@)] + args =~= seq![Value::Sym("-"@), Value::Num(a)]);
    lemma_call_builtin(scopes, "-"@, LBuiltin::Sub, args, depth);
}

/// In a root, `(/ x 0)` and `(% x 0)` fail with `DivideByZero`.
pub proof fn lemma_program_divide_by_zero(m: Bindings, x: i64, depth: nat)
    requires
        depth >= 1,
    ensures
        eval_of(
            seq![with_builtins(m)],
            Value::Sexpr(seq![Value::Sym("/"@), Value::Num(x), Value::Num(0)]),
            depth,
        ) == (Outcome { result: Err(Failure::DivideByZero), scopes: seq![with_builtins(m)] }),
        eval_of(
            seq![with_builtins(m)],
            Value::Sexpr(seq![Value::Sym("%"@), Value::Num(x), Value::Num(0)]),
            depth,
        ) == (Outcome { result: Err(Failure::DivideByZero), scopes: seq![with_builtins(m)] }),
{
    let scopes = seq![with_builtins(m)];
    lemma_name_texts();
    lemma_builtin_names();
    lemma_root_bindings(m, "/"@);
    lemma_root_bindings(m, "%"@);
    lemma_divide_by_zero(Value::Num(x));
    let args = seq![Value::Num(x), Value::Num(0)];
    assert(seq![Value::Sym("/"@)] + args =~= seq![Value::Sym("/"@), Value::Num(x), Value::Num(0)]);
    assert(seq![Value::Sym("%"@)] + args =~= seq![Value::Sym("%"@), Value::Num(x), Value::Num(0)]);
    lemma_call_builtin(scopes, "/"@, LBuiltin::Div, args, depth);
    lemma_call_builtin(scopes, "%"@, LBuiltin::Rem, args, depth);
}

/// In a root, `(head {})` fails with `EmptyList`.
pub proof fn lemma_program_head_of_empty(m: Bindings, depth: nat)
    requires
        depth >= 1,
    ensures
        eval_of(
            seq![with_builtins(m)],
            Value::Sexpr(seq![Value::Sym("head"@), Value::Qexpr(Seq::empty())]),
            depth,
        ) == (Outcome { result: Err(Failure::EmptyList), scopes: seq![with_builtins(m)] }),
{
    let scopes = seq![with_builtins(m)];
    lemma_name_texts();
    lemma_builtin_names();
    lemma_root_bindings(m, "head"@);
    let args = seq![Value::Qexpr(Seq::empty())];
    assert(seq![Value::Sym("head"@)] + args =~= seq![
        Value::Sym("head"@),
        Value::Qexpr(Seq::empty()),
    ]);
    lemma_call_builtin(scopes, "head"@, LBuiltin::Head, args, depth);
}

/// In a root, `(def {s1 … sj} v1 … vk)` with `j` other than `k` fails with `NumArguments` of
/// `j` and `k`, and binds nothing.
pub proof fn lemma_program_def_arity(m: Bindings, names: Seq<Value>, vals: Seq<Value>, depth: nat)
    requires
        names.len() != vals.len(),
        forall|i: int| 0 <= i < vals.len() ==> self_evaluating(#[trigger] vals[i]),
        depth >= 1,
    ensures
        eval_of(
            seq![with_builtins(m)],
            Value::Sexpr(seq![Value::Sym("def"@), Value::Qexpr(names)] + vals),
            depth,
        ) == (Outcome {
            result: Err(Failure::NumArguments(names.len() as usize, vals.len() as usize)),
            scopes: seq![with_builtins(m)],
        }),
{
    let scopes = seq![with_builtins(m)];
    lemma_name_texts();
    lemma_builtin_names();
    lemma_root_bindings(m, "def"@);
    let f = Value::Builtin("def"@, LBuiltin::PutStub);
    let rest = seq![Value::Qexpr(names)] + vals;
    let cells = seq![Value::Sym("def"@), Value::Qexpr(names)] + vals;
    assert(cells =~= seq![Value::Sym("def"@)] + rest);
    assert forall|i: int| 0 <= i < rest.len() implies self_evaluating(#[trigger] rest[i]) by {
        if i > 0 {
            assert(rest[i] == vals[i - 1]);
        }
    }
    lemma_eval_cells_first(scopes, "def"@, f, rest, (depth - 1) as nat);
    let results = seq![f] + rest;
    assert(results.drop_first() =~= rest);
    assert(results[0] == f);
    lemma_def_arity(scopes, names, vals, true);
}

/// A list that holds a function and then more arguments than the function has parameters,
/// none of them `&`, fails with `NumArguments` of the number of the parameters and the number
/// of the arguments.
pub proof fn lemma_program_lambda_too_many(
    scopes: Scopes,
    captures: Bindings,
    formals: Seq<Value>,
    body: Value,
    args: Seq<Value>,
    depth: nat,
)
    requires
        plain_formals(formals),
        args.len() > formals.len(),
        forall|i: int| 0 <= i < args.len() ==> self_evaluating(#[trigger] args[i]),
        depth >= 1,
    ensures
        eval_of(
            scopes,
            Value::Sexpr(
                seq![Value::Lambda(captures, Box::new(Value::Qexpr(formals)), Box::new(body))]
                    + args,
            ),
            depth,
        ) == (Outcome {
            result: Err(Failure::NumArguments(formals.len() as usize, args.len() as usize)),
            scopes,
        }),
{
    let f = Value::Lambda(captures, Box::new(Value::Qexpr(formals)), Box::new(body));
    let cells = seq![f] + args;
    assert forall|i: int| 0 <= i < cells.len() implies self_evaluating(#[trigger] cells[i]) by {
        if i > 0 {
            assert(cells[i] == args[i - 1]);
        }
    }
    lemma_eval_cells_fixed(scopes, cells, (depth - 1) as nat);
    assert(cells.drop_first() =~= args);
    assert(cells[0] == f);
    lemma_lambda_too_many(scopes, captures, formals, body, args, (depth - 1) as nat);
}

} // verus!
