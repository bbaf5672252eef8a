use crate::error::Failure;
use crate::lval::{LBuiltin, Value};
use crate::text::text_precedes;
use vstd::prelude::*;

verus! {

/// One scope: the values bound to names.
pub type Bindings = Map<Seq<char>, Value>;

/// A chain of scopes, the innermost first and the root last.
pub type Scopes = Seq<Bindings>;

/// What an evaluation gives: its result, and the scopes as it leaves them.
pub struct Outcome {
    pub result: Result<Value, Failure>,
    pub scopes: Scopes,
}

/// The failure for a value of the wrong kind.
pub open spec fn wrong_type(expected: Seq<char>, got: Value) -> Failure {
    Failure::WrongType(expected, got.print())
}

/// Division of `a` by `b`, rounded toward zero.
pub open spec fn truncated_quotient(a: int, b: int) -> int {
    if a == 0 {
        0
    } else if a > 0 && b > 0 {
        a / b
    } else if a < 0 && b < 0 {
        (a * -1) / (b * -1)
    } else if a < 0 {
        ((a * -1) / b) * -1
    } else {
        (a / (b * -1)) * -1
    }
}

/// The remainder that goes with `truncated_quotient`: it has the sign of `a`.
pub open spec fn truncated_remainder(a: int, b: int) -> int {
    if a == 0 {
        0
    } else if a > 0 && b > 0 {
        a % b
    } else if a < 0 && b < 0 {
        ((a * -1) % (b * -1)) * -1
    } else if a < 0 {
        ((a * -1) % b) * -1
    } else {
        a % (b * -1)
    }
}

/// `x` multiplied by itself `y` times, starting from one, wrapping around at the ends of `i64`.
pub open spec fn power(x: i64, y: int) -> i64
    decreases y,
{
    if y <= 0 {
        1
    } else {
        power(x, y - 1).wrapping_mul(x)
    }
}

/// The arithmetic operation `op` on two numbers, `b` not zero where `op` divides.
/// Sums, differences and products wrap around at the ends of `i64`.
pub open spec fn arith(op: LBuiltin, a: i64, b: i64) -> i64 {
    match op {
        LBuiltin::Add => a.wrapping_add(b),
        LBuiltin::Sub => a.wrapping_sub(b),
        LBuiltin::Mul => a.wrapping_mul(b),
        LBuiltin::Div => if a == i64::MIN && b == -1 {
            i64::MIN
        } else {
            truncated_quotient(a as int, b as int) as i64
        },
        LBuiltin::Rem => if a == i64::MIN && b == -1 {
            0
        } else {
            truncated_remainder(a as int, b as int) as i64
        },
        LBuiltin::Pow => power(a, b as int),
        LBuiltin::Max => if a > b {
            a
        } else {
            b
        },
        LBuiltin::Min => if a < b {
            a
        } else {
            b
        },
        _ => a,
    }
}

/// The arithmetic operation that goes by the name `name`.
pub open spec fn arith_named(name: Seq<char>) -> Option<LBuiltin> {
    if name == "+"@ || name == "add"@ {
        Some(LBuiltin::Add)
    } else if name == "-"@ || name == "sub"@ {
        Some(LBuiltin::Sub)
    } else if name == "*"@ || name == "mul"@ {
        Some(LBuiltin::Mul)
    } else if name == "/"@ || name == "div"@ {
        Some(LBuiltin::Div)
    } else if name == "%"@ || name == "rem"@ {
        Some(LBuiltin::Rem)
    } else if name == "^"@ || name == "pow"@ {
        Some(LBuiltin::Pow)
    } else if name == "min"@ {
        Some(LBuiltin::Min)
    } else if name == "max"@ {
        Some(LBuiltin::Max)
    } else {
        None
    }
}

/// Whether `op` is one of the eight arithmetic operations.
pub open spec fn is_arith(op: LBuiltin) -> bool {
    op is Add || op is Sub || op is Mul || op is Div || op is Rem || op is Pow || op is Max
        || op is Min
}

/// One step of the fold: `op` applied to what was reached so far and to the next argument.
pub open spec fn arith_step(op: LBuiltin, x: Value, y: Value) -> Result<Value, Failure> {
    match y {
        Value::Num(b) => if (op is Div || op is Rem) && b == 0 {
            Err(Failure::DivideByZero)
        } else {
            match x {
                Value::Num(a) => Ok(Value::Num(arith(op, a, b))),
                _ => Err(Failure::NotANumber),
            }
        },
        _ => Err(Failure::NotANumber),
    }
}

/// The fold of `op` over `cs` from the left, with the first cell as its seed.
pub open spec fn arith_fold(op: LBuiltin, cs: Seq<Value>) -> Result<Value, Failure>
    recommends
        cs.len() >= 1,
    decreases cs.len(),
{
    if cs.len() <= 1 {
        Ok(cs[0])
    } else {
        match arith_fold(op, cs.drop_last()) {
            Ok(x) => arith_step(op, x, cs.last()),
            Err(e) => Err(e),
        }
    }
}

/// What an arithmetic builtin gives for the argument list `args`.
pub open spec fn arith_of(op: LBuiltin, args: Value) -> Result<Value, Failure> {
    match args {
        Value::Sexpr(cs) => if cs.len() == 0 {
            Err(Failure::NumArguments(1, 0))
        } else if cs.len() == 1 {
            match cs[0] {
                Value::Num(a) => Ok(
                    Value::Num(
                        if op is Sub {
                            0i64.wrapping_sub(a)
                        } else {
                            a
                        },
                    ),
                ),
                _ => Err(Failure::NotANumber),
            }
        } else {
            arith_fold(op, cs)
        },
        _ => Ok(args),
    }
}

/// The first argument of an argument list.
pub open spec fn first_arg(args: Value) -> Result<Value, Failure> {
    match args.cells() {
        Some(cs) => if cs.len() == 0 {
            Err(Failure::NumArguments(1, 0))
        } else {
            Ok(cs[0])
        },
        None => Err(Failure::NoChildren),
    }
}

/// What `list` gives: the arguments as a Q-expression.
pub open spec fn list_of(args: Value) -> Result<Value, Failure> {
    match args {
        Value::Sexpr(cs) => Ok(Value::Qexpr(cs)),
        _ => Ok(args),
    }
}

/// What `head` gives: the first cell of the Q-expression that is its first argument.
pub open spec fn head_of(args: Value) -> Result<Value, Failure> {
    match first_arg(args) {
        Ok(Value::Qexpr(q)) => if q.len() == 0 {
            Err(Failure::EmptyList)
        } else {
            Ok(q[0])
        },
        Ok(other) => Err(wrong_type("qexpr"@, other)),
        Err(e) => Err(e),
    }
}

/// What `tail` gives: its first argument without its first cell.
pub open spec fn tail_of(args: Value) -> Result<Value, Failure> {
    match first_arg(args) {
        Ok(Value::Qexpr(q)) => if q.len() == 0 {
            Err(Failure::EmptyList)
        } else {
            Ok(Value::Qexpr(q.drop_first()))
        },
        Ok(other) => Err(wrong_type("qexpr"@, other)),
        Err(e) => Err(e),
    }
}

/// What `init` gives: its first argument without its last cell; the empty list stays empty.
pub open spec fn init_of(args: Value) -> Result<Value, Failure> {
    match first_arg(args) {
        Ok(Value::Qexpr(q)) => if q.len() == 0 {
            Ok(Value::Qexpr(q))
        } else {
            Ok(Value::Qexpr(q.drop_last()))
        },
        Ok(other) => Err(wrong_type("qexpr"@, other)),
        Err(e) => Err(e),
    }
}

/// The cells of the Q-expressions `cs` one after the other; the failure for the first cell
/// that is no Q-expression.
pub open spec fn concat_all(cs: Seq<Value>) -> Result<Seq<Value>, Failure>
    decreases cs.len(),
{
    if cs.len() == 0 {
        Ok(Seq::empty())
    } else {
        match concat_all(cs.drop_last()) {
            Ok(front) => match cs.last() {
                Value::Qexpr(q) => Ok(front + q),
                other => Err(wrong_type("qexpr"@, other)),
            },
            Err(e) => Err(e),
        }
    }
}

/// What `join` gives: one Q-expression with the cells of all its arguments.
pub open spec fn join_of(args: Value) -> Result<Value, Failure> {
    match args.cells() {
        Some(cs) => match concat_all(cs) {
            Ok(all) => Ok(Value::Qexpr(all)),
            Err(e) => Err(e),
        },
        None => Err(Failure::NoChildren),
    }
}

/// What `cons` gives: its second argument with its first argument put in front.
pub open spec fn cons_of(args: Value) -> Result<Value, Failure> {
    match args.cells() {
        Some(cs) => if cs.len() != 2 {
            Err(Failure::NumArguments(2, cs.len() as usize))
        } else {
            match cs[1] {
                Value::Qexpr(q) => Ok(Value::Qexpr(seq![cs[0]] + q)),
                other => Err(wrong_type("qexpr"@, other)),
            }
        },
        None => Err(Failure::NoChildren),
    }
}

/// What `len` gives: the number of cells of the Q-expression that is its only argument.
pub open spec fn count_of(args: Value) -> Result<Value, Failure> {
    match args.cells() {
        Some(cs) => if cs.len() != 1 {
            Err(Failure::NumArguments(1, cs.len() as usize))
        } else {
            match cs[0] {
                Value::Qexpr(q) => Ok(Value::Num(q.len() as i64)),
                other => Err(wrong_type("qexpr"@, other)),
            }
        },
        None => Err(Failure::NoChildren),
    }
}

/// The first cell of `cs` that is no symbol, if there is one.
pub open spec fn first_non_symbol(cs: Seq<Value>) -> Option<Value>
    decreases cs.len(),
{
    if cs.len() == 0 {
        None
    } else {
        match first_non_symbol(cs.drop_last()) {
            Some(v) => Some(v),
            None => if cs.last() is Sym {
                None
            } else {
                Some(cs.last())
            },
        }
    }
}

/// What `\` gives: the function with the parameters and the body that are its two arguments.
pub open spec fn lambda_of(args: Value) -> Result<Value, Failure> {
    match args.cells() {
        Some(cs) => if cs.len() != 2 {
            Err(Failure::NumArguments(2, cs.len() as usize))
        } else {
            match cs[0] {
                Value::Qexpr(formals) => match first_non_symbol(formals) {
                    Some(cell) => Err(wrong_type("Symbol"@, cell)),
                    None => match cs[1] {
                        Value::Qexpr(_) => Ok(
                            Value::Lambda(Map::empty(), Box::new(cs[0]), Box::new(cs[1])),
                        ),
                        other => Err(wrong_type("Q-Expression"@, other)),
                    },
                },
                other => Err(wrong_type("Q-Expression"@, other)),
            }
        },
        None => Err(Failure::NoChildren),
    }
}

/// What a builtin gives that needs no environment.
pub open spec fn pure_of(op: LBuiltin, args: Value) -> Result<Value, Failure> {
    match op {
        LBuiltin::Lambda => lambda_of(args),
        LBuiltin::Cons => cons_of(args),
        LBuiltin::Head => head_of(args),
        LBuiltin::Init => init_of(args),
        LBuiltin::List => list_of(args),
        LBuiltin::Join => join_of(args),
        LBuiltin::Len => count_of(args),
        LBuiltin::Tail => tail_of(args),
        LBuiltin::Exit => Err(Failure::Exit),
        LBuiltin::PutStub => Ok(Value::Sexpr(Seq::empty())),
        LBuiltin::EvalStub => Ok(Value::Sexpr(Seq::empty())),
        LBuiltin::PrintenvStub => Ok(Value::Sexpr(Seq::empty())),
        _ => arith_of(op, args),
    }
}

/// The value bound to `name` in the innermost scope that binds it.
pub open spec fn scopes_get(scopes: Scopes, name: Seq<char>) -> Option<Value>
    decreases scopes.len(),
{
    if scopes.len() == 0 {
        None
    } else if scopes[0].contains_key(name) {
        Some(scopes[0][name])
    } else {
        scopes_get(scopes.drop_first(), name)
    }
}

/// The scopes after `name` is bound to `v` in the innermost of them.
pub open spec fn scopes_put(scopes: Scopes, name: Seq<char>, v: Value) -> Scopes {
    scopes.update(0, scopes[0].insert(name, v))
}

/// The scopes after `name` is bound to `v` in the root.
pub open spec fn scopes_def(scopes: Scopes, name: Seq<char>, v: Value) -> Scopes {
    scopes.update(scopes.len() - 1, scopes.last().insert(name, v))
}

/// The bindings `m` with the builtin `op` bound to `name`.
pub open spec fn with_builtin(m: Bindings, name: Seq<char>, op: LBuiltin) -> Bindings {
    m.insert(name, Value::Builtin(name, op))
}

/// The bindings `m` with the definition and list builtins bound to their names.
pub open spec fn with_list_builtins(m: Bindings) -> Bindings {
    let m = with_builtin(m, "\\"@, LBuiltin::Lambda);
    let m = with_builtin(m, "def"@, LBuiltin::PutStub);
    let m = with_builtin(m, "="@, LBuiltin::PutStub);
    let m = with_builtin(m, "cons"@, LBuiltin::Cons);
    let m = with_builtin(m, "eval"@, LBuiltin::EvalStub);
    let m = with_builtin(m, "head"@, LBuiltin::Head);
    let m = with_builtin(m, "init"@, LBuiltin::Init);
    let m = with_builtin(m, "list"@, LBuiltin::List);
    let m = with_builtin(m, "join"@, LBuiltin::Join);
    let m = with_builtin(m, "len"@, LBuiltin::Len);
    let m = with_builtin(m, "tail"@, LBuiltin::Tail);
    let m = with_builtin(m, "exit"@, LBuiltin::Exit);
    with_builtin(m, "printenv"@, LBuiltin::PrintenvStub)
}

/// The bindings `m` with the arithmetic builtins bound to their names.
pub open spec fn with_arith_builtins(m: Bindings) -> Bindings {
    let m = with_builtin(m, "+"@, LBuiltin::Add);
    let m = with_builtin(m, "add"@, LBuiltin::Add);
    let m = with_builtin(m, "-"@, LBuiltin::Sub);
    let m = with_builtin(m, "sub"@, LBuiltin::Sub);
    let m = with_builtin(m, "*"@, LBuiltin::Mul);
    let m = with_builtin(m, "mul"@, LBuiltin::Mul);
    let m = with_builtin(m, "/"@, LBuiltin::Div);
    let m = with_builtin(m, "div"@, LBuiltin::Div);
    let m = with_builtin(m, "^"@, LBuiltin::Pow);
    let m = with_builtin(m, "pow"@, LBuiltin::Pow);
    let m = with_builtin(m, "%"@, LBuiltin::Rem);
    let m = with_builtin(m, "rem"@, LBuiltin::Rem);
    let m = with_builtin(m, "min"@, LBuiltin::Min);
    with_builtin(m, "max"@, LBuiltin::Max)
}

/// The bindings of a root scope that starts from `m`: every builtin is bound to its name.
pub open spec fn with_builtins(m: Bindings) -> Bindings {
    with_arith_builtins(with_list_builtins(m))
}

/// Whether `names` holds the names that `m` binds, each once, in ascending order.
pub open spec fn names_in_order(m: Bindings, names: Seq<Seq<char>>) -> bool {
    &&& forall|i: int| 0 <= i < names.len() ==> m.contains_key(#[trigger] names[i])
    &&& forall|k: Seq<char>| #[trigger] m.contains_key(k) ==> names.contains(k)
    &&& forall|i: int, j: int|
        0 <= i < j < names.len() ==> text_precedes(#[trigger] names[i], #[trigger] names[j])
            && names[i] != names[j]
}

/// The names that `m` binds, in ascending order.
pub open spec fn ordered_names(m: Bindings) -> Seq<Seq<char>> {
    choose|names: Seq<Seq<char>>| names_in_order(m, names)
}

/// The symbol that shows one binding: the name, a colon and the printed value.
pub open spec fn binding_symbol(name: Seq<char>, v: Value) -> Value {
    Value::Sym(name + seq![':'] + v.print())
}

/// The Q-expression that shows the bindings of `m`, one symbol for each, ordered by name.
pub open spec fn listing(m: Bindings) -> Value {
    let names = ordered_names(m);
    Value::Qexpr(Seq::new(names.len(), |i: int| binding_symbol(names[i], m[names[i]])))
}

/// The scopes after the first `k` of `names` are bound to the first `k` of `vals`, in the
/// root or in the innermost scope, and the failure at the first name that is no symbol.
pub open spec fn bind_names(
    scopes: Scopes,
    names: Seq<Value>,
    vals: Seq<Value>,
    k: int,
    root: bool,
) -> Outcome
    decreases k,
{
    if k <= 0 {
        Outcome { result: Ok(Value::Sexpr(Seq::empty())), scopes }
    } else {
        let before = bind_names(scopes, names, vals, k - 1, root);
        match before.result {
            Ok(_) => match names[k - 1] {
                Value::Sym(name) => Outcome {
                    result: before.result,
                    scopes: if root {
                        scopes_def(before.scopes, name, vals[k - 1])
                    } else {
                        scopes_put(before.scopes, name, vals[k - 1])
                    },
                },
                other => Outcome {
                    result: Err(wrong_type("symbol"@, other)),
                    scopes: before.scopes,
                },
            },
            Err(_) => before,
        }
    }
}

/// What `def` and `=` give: each symbol of the first argument is bound to the argument that
/// matches it, in the root for `def` and in the innermost scope for `=`.
pub open spec fn var_of(scopes: Scopes, args: Value, root: bool) -> Outcome {
    match first_arg(args) {
        Ok(Value::Qexpr(names)) => {
            let vals = args.cells()->0.drop_first();
            if vals.len() == names.len() {
                bind_names(scopes, names, vals, names.len() as int, root)
            } else {
                Outcome {
                    result: Err(
                        Failure::NumArguments(names.len() as usize, vals.len() as usize),
                    ),
                    scopes,
                }
            }
        },
        Ok(other) => Outcome { result: Err(wrong_type("qexpr"@, other)), scopes },
        Err(e) => Outcome { result: Err(e), scopes },
    }
}

/// The parameters that are left and the bindings that were made, when a function is called.
pub struct Bound {
    pub formals: Seq<Value>,
    pub fresh: Bindings,
}

/// Binds parameters to arguments from the left, as long as there are arguments. The parameter
/// `&` binds the one parameter after it to the list of the arguments that are left.
pub open spec fn bind_formals(
    formals: Seq<Value>,
    args: Seq<Value>,
    fresh: Bindings,
    total: usize,
    given: usize,
) -> Result<Bound, Failure>
    decreases args.len(),
{
    if args.len() == 0 {
        Ok(Bound { formals, fresh })
    } else if formals.len() == 0 {
        Err(Failure::NumArguments(total, given))
    } else {
        match formals[0] {
            Value::Sym(name) => if name == "&"@ {
                if formals.len() != 2 {
                    Err(Failure::FunctionFormat)
                } else {
                    match formals[1] {
                        Value::Sym(rest) => Ok(
                            Bound {
                                formals: Seq::empty(),
                                fresh: fresh.insert(rest, Value::Qexpr(args)),
                            },
                        ),
                        other => Err(wrong_type("symbol"@, other)),
                    }
                }
            } else {
                bind_formals(
                    formals.drop_first(),
                    args.drop_first(),
                    fresh.insert(name, args[0]),
                    total,
                    given,
                )
            },
            other => Err(wrong_type("symbol"@, other)),
        }
    }
}

/// The result of evaluating `v` in `scopes`, nesting at most `depth` evaluations of lists
/// inside one another.
pub open spec fn eval_of(scopes: Scopes, v: Value, depth: nat) -> Outcome
    decreases depth, 0nat, 0nat,
{
    match v {
        Value::Blispr(forms) => if forms.len() == 0 {
            Outcome { result: Ok(v), scopes }
        } else if depth == 0 {
            Outcome { result: Err(Failure::DepthExceeded), scopes }
        } else {
            let done = eval_cells_of(scopes, forms, (depth - 1) as nat);
            match done.result {
                Ok(results) => Outcome { result: Ok(results.last()), scopes: done.scopes },
                Err(e) => Outcome { result: Err(e), scopes: done.scopes },
            }
        },
        Value::Sym(name) => match scopes_get(scopes, name) {
            Some(found) => Outcome { result: Ok(found), scopes },
            None => Outcome { result: Err(Failure::UnknownFunction(name)), scopes },
        },
        Value::Sexpr(cells) => if cells.len() == 0 {
            Outcome { result: Ok(v), scopes }
        } else if depth == 0 {
            Outcome { result: Err(Failure::DepthExceeded), scopes }
        } else {
            let done = eval_cells_of(scopes, cells, (depth - 1) as nat);
            match done.result {
                Ok(results) => if results.len() == 1 {
                    Outcome { result: Ok(results[0]), scopes: done.scopes }
                } else {
                    apply_of(
                        done.scopes,
                        results[0],
                        Value::Sexpr(results.drop_first()),
                        (depth - 1) as nat,
                    )
                },
                Err(e) => Outcome { result: Err(e), scopes: done.scopes },
            }
        },
        _ => Outcome { result: Ok(v), scopes },
    }
}

/// What evaluating cells one after the other gives: the results in order, or the first failure.
pub struct CellsOutcome {
    pub result: Result<Seq<Value>, Failure>,
    pub scopes: Scopes,
}

/// The results of evaluating `cells` from the left, each in the scopes that the one before
/// it left; the first failure ends it.
pub open spec fn eval_cells_of(scopes: Scopes, cells: Seq<Value>, depth: nat) -> CellsOutcome
    decreases depth, 3nat, cells.len(),
{
    if cells.len() == 0 {
        CellsOutcome { result: Ok(Seq::empty()), scopes }
    } else {
        let front = eval_cells_of(scopes, cells.drop_last(), depth);
        match front.result {
            Ok(results) => {
                let last = eval_of(front.scopes, cells.last(), depth);
                match last.result {
                    Ok(x) => CellsOutcome { result: Ok(results.push(x)), scopes: last.scopes },
                    Err(e) => CellsOutcome { result: Err(e), scopes: last.scopes },
                }
            },
            Err(_) => front,
        }
    }
}

/// What the builtin `eval` gives: its first argument, a Q-expression, evaluated as an
/// S-expression; with another first argument, the argument list evaluated as it stands.
pub open spec fn eval_builtin_of(scopes: Scopes, args: Value, depth: nat) -> Outcome
    decreases depth, 1nat, 0nat,
{
    match first_arg(args) {
        Ok(Value::Qexpr(q)) => eval_of(scopes, Value::Sexpr(q), depth),
        Ok(_) => eval_of(scopes, args, depth),
        Err(e) => Outcome { result: Err(e), scopes },
    }
}

/// What calling `f` on the argument list `args` gives. A builtin runs on the arguments. A
/// function binds its parameters to the arguments: with all of them bound, its body is
/// evaluated in a new scope that holds the bindings it came with and the new ones; with some
/// left, the result is a function that holds all those bindings and waits for the rest.
pub open spec fn apply_of(scopes: Scopes, f: Value, args: Value, depth: nat) -> Outcome
    decreases depth, 2nat, 0nat,
{
    match f {
        Value::Builtin(name, op) => if name == "eval"@ {
            eval_builtin_of(scopes, args, depth)
        } else if name == "def"@ {
            var_of(scopes, args, true)
        } else if name == "="@ {
            var_of(scopes, args, false)
        } else if name == "printenv"@ {
            Outcome { result: Ok(listing(scopes[0])), scopes }
        } else {
            Outcome { result: pure_of(op, args), scopes }
        },
        Value::Lambda(captures, formals, body) => match (args.cells(), formals.cells()) {
            (Some(given), Some(params)) => match bind_formals(
                params,
                given,
                Map::empty(),
                params.len() as usize,
                given.len() as usize,
            ) {
                Ok(bound) => {
                    let local = captures.union_prefer_right(bound.fresh);
                    if bound.formals.len() == 0 {
                        let inner = eval_builtin_of(
                            seq![local] + scopes,
                            Value::Sexpr(seq![*body]),
                            depth,
                        );
                        Outcome { result: inner.result, scopes: inner.scopes.drop_first() }
                    } else {
                        Outcome {
                            result: Ok(
                                Value::Lambda(
                                    local,
                                    Box::new(formals.with_cells(bound.formals)),
                                    body,
                                ),
                            ),
                            scopes,
                        }
                    }
                },
                Err(e) => Outcome { result: Err(e), scopes },
            },
            _ => Outcome { result: Err(Failure::NoChildren), scopes },
        },
        _ => Outcome { result: Err(wrong_type("Function"@, f)), scopes },
    }
}

} // verus!
