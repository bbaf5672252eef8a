use crate::error::{BlisprResult, Error, Failure};
use crate::lookup::{lookup_bindings, LEnvLookup};
use crate::text::{push_char, push_signed_decimal, signed_decimal};
use vstd::prelude::*;
use vstd::string::*;

verus! {

/// Identifies the implementation that a builtin function value refers to.
#[derive(Clone, Copy, Debug, PartialEq, Eq, Structural)]
pub enum LBuiltin {
    Add,
    Sub,
    Mul,
    Div,
    Rem,
    Pow,
    Max,
    Min,
    Lambda,
    PutStub,
    Cons,
    EvalStub,
    Head,
    Init,
    List,
    Join,
    Len,
    Tail,
    Exit,
    PrintenvStub,
}

/// The mathematical value that an `Lval` stands for.
pub enum Value {
    Blispr(Seq<Value>),
    Builtin(Seq<char>, LBuiltin),
    Lambda(Map<Seq<char>, Value>, Box<Value>, Box<Value>),
    Num(i64),
    Sym(Seq<char>),
    Sexpr(Seq<Value>),
    Qexpr(Seq<Value>),
}

impl Value {
    /// The cells of a container; `None` for a value that holds none.
    pub open spec fn cells(self) -> Option<Seq<Value>> {
        match self {
            Value::Blispr(cs) => Some(cs),
            Value::Sexpr(cs) => Some(cs),
            Value::Qexpr(cs) => Some(cs),
            _ => None,
        }
    }

    /// The container of the same kind as `self` that holds `cs`; `self` where it is no container.
    pub open spec fn with_cells(self, cs: Seq<Value>) -> Value {
        match self {
            Value::Blispr(_) => Value::Blispr(cs),
            Value::Sexpr(_) => Value::Sexpr(cs),
            Value::Qexpr(_) => Value::Qexpr(cs),
            _ => self,
        }
    }

    /// The printed form of the value.
    pub open spec fn print(self) -> Seq<char>
        decreases self,
    {
        match self {
            Value::Blispr(_) => "<toplevel>"@,
            Value::Builtin(name, _) => "<builtin: "@ + name + seq!['>'],
            Value::Lambda(_, formals, body) => seq!['(', '\\', ' '] + formals.print() + seq![' ']
                + body.print() + seq![')'],
            Value::Num(n) => signed_decimal(n as int),
            Value::Sym(s) => s,
            Value::Sexpr(cs) => seq!['('] + print_cells(cs) + seq![')'],
            Value::Qexpr(cs) => seq!['{'] + print_cells(cs) + seq!['}'],
        }
    }
}

/// The printed forms of `cs`, in order, with one space between neighbours.
pub open spec fn print_cells(cs: Seq<Value>) -> Seq<char>
    decreases cs,
{
    if cs.len() == 0 {
        Seq::empty()
    } else if cs.len() == 1 {
        cs[0].print()
    } else {
        print_cells(cs.drop_last()) + seq![' '] + cs.last().print()
    }
}

/// A function: a builtin, by its name and its operation, or one that was made with `\\`, by the
/// bindings it came with, its parameters and its body.
#[derive(Debug)]
pub enum Func {
    Builtin(String, LBuiltin),
    Lambda(LEnvLookup, Box<Lval>, Box<Lval>),
}

/// A value of the language.
#[derive(Debug)]
pub enum Lval {
    Blispr(Vec<Box<Lval>>),
    Fun(Func),
    Num(i64),
    Sym(String),
    Sexpr(Vec<Box<Lval>>),
    Qexpr(Vec<Box<Lval>>),
}

/// The values that the cells of a container stand for, in order.
pub open spec fn cells_of(cells: Vec<Box<Lval>>) -> Seq<Value>
    decreases cells,
{
    Seq::new(
        cells@.len(),
        |i: int|
            if 0 <= i < cells@.len() {
                value_of(*cells@[i])
            } else {
                Value::Num(0)
            },
    )
}

/// The cells of a container stand for their values one by one.
pub proof fn lemma_cells_of(cells: Vec<Box<Lval>>)
    ensures
        cells_of(cells).len() == cells@.len(),
        forall|i: int| 0 <= i < cells@.len() ==> #[trigger] cells_of(cells)[i] == cells@[i]@,
{
}

/// The value that `v` stands for: cells are taken in order, strings by their characters.
pub open spec fn value_of(v: Lval) -> Value
    decreases v,
{
    match v {
        Lval::Blispr(cells) => Value::Blispr(cells_of(cells)),
        Lval::Fun(Func::Builtin(name, op)) => Value::Builtin(name@, op),
        Lval::Fun(Func::Lambda(env, formals, body)) => Value::Lambda(
            lookup_bindings(env),
            Box::new(value_of(*formals)),
            Box::new(value_of(*body)),
        ),
        Lval::Num(n) => Value::Num(n),
        Lval::Sym(s) => Value::Sym(s@),
        Lval::Sexpr(cells) => Value::Sexpr(cells_of(cells)),
        Lval::Qexpr(cells) => Value::Qexpr(cells_of(cells)),
    }
}

impl View for Lval {
    type V = Value;

    open spec fn view(&self) -> Value {
        value_of(*self)
    }
}

/// A copy of each cell of `cells`, in the same order.
pub fn clone_cells(cells: &Vec<Box<Lval>>) -> (r: Vec<Box<Lval>>)
    ensures
        cells_of(r) == cells_of(*cells),
    decreases cells,
{
    let mut out: Vec<Box<Lval>> = Vec::new();
    let mut i: usize = 0;
    while i < cells.len()
        invariant
            i <= cells@.len(),
            out@.len() == i,
            forall|j: int| 0 <= j < i ==> value_of(*out@[j]) == value_of(*cells@[j]),
        decreases cells@.len() - i,
    {
        let c = (*cells[i]).clone();
        out.push(Box::new(c));
        i += 1;
    }
    assert(cells_of(out) =~= cells_of(*cells));
    out
}

impl Clone for Func {
    /// A copy that stands for the same function.
    fn clone(&self) -> (r: Func)
        ensures
            Lval::Fun(r)@ == Lval::Fun(*self)@,
        decreases self,
    {
        match self {
            Func::Builtin(name, op) => Func::Builtin(name.clone(), *op),
            Func::Lambda(env, formals, body) => Func::Lambda(
                env.clone(),
                Box::new((**formals).clone()),
                Box::new((**body).clone()),
            ),
        }
    }
}

impl Clone for Lval {
    /// A copy that stands for the same value.
    fn clone(&self) -> (r: Lval)
        ensures
            r@ == self@,
        decreases self,
    {
        match self {
            Lval::Blispr(cells) => Lval::Blispr(clone_cells(cells)),
            Lval::Fun(f) => Lval::Fun(f.clone()),
            Lval::Num(n) => Lval::Num(*n),
            Lval::Sym(s) => Lval::Sym(s.clone()),
            Lval::Sexpr(cells) => Lval::Sexpr(clone_cells(cells)),
            Lval::Qexpr(cells) => Lval::Qexpr(clone_cells(cells)),
        }
    }
}

/// What `as_num` gives for a value.
pub open spec fn as_num_of(v: Value) -> Result<i64, Failure> {
    match v {
        Value::Num(n) => Ok(n),
        _ => Err(Failure::NotANumber),
    }
}

/// What `as_string` gives for a value.
pub open spec fn as_string_of(v: Value) -> Result<Seq<char>, Failure> {
    match v {
        Value::Sym(s) => Ok(s),
        _ => Err(Failure::WrongType("symbol"@, v.print())),
    }
}

/// What `len` gives for a value.
pub open spec fn len_of(v: Value) -> Result<nat, Failure> {
    match v.cells() {
        Some(cs) => Ok(cs.len()),
        None => Err(Failure::NoChildren),
    }
}

/// Appends the printed forms of `cells` to `out`, with one space between neighbours.
fn push_cells(cells: &Vec<Box<Lval>>, out: &mut String)
    ensures
        final(out)@ == old(out)@ + print_cells(cells_of(*cells)),
    decreases cells,
{
    let ghost base = out@;
    let ghost cs = cells_of(*cells);
    let mut i: usize = 0;
    while i < cells.len()
        invariant
            i <= cells@.len(),
            cs == cells_of(*cells),
            out@ == base + print_cells(cs.take(i as int)),
        decreases cells@.len() - i,
    {
        if i > 0 {
            push_char(out, ' ');
        }
        cells[i].push_print(out);
        proof {
            let next = cs.take(i + 1);
            assert(next.drop_last() =~= cs.take(i as int));
            assert(next.last() == cs[i as int]);
            assert(out@ =~= base + print_cells(next));
        }
        i += 1;
    }
    assert(cs.take(i as int) =~= cs);
}

impl Lval {
    /// The number that the value holds.
    pub fn as_num(&self) -> (r: Result<i64, Error>)
        ensures
            r matches Ok(n) ==> as_num_of(self@) == Ok::<i64, Failure>(n),
            r matches Err(e) ==> as_num_of(self@) == Err::<i64, Failure>(e@),
    {
        match self {
            Lval::Num(n) => Ok(*n),
            _ => Err(Error::NotANumber),
        }
    }

    /// The name that a symbol holds.
    pub fn as_string(&self) -> (r: Result<String, Error>)
        ensures
            r matches Ok(s) ==> as_string_of(self@) == Ok::<Seq<char>, Failure>(s@),
            r matches Err(e) ==> as_string_of(self@) == Err::<Seq<char>, Failure>(e@),
    {
        match self {
            Lval::Sym(s) => Ok(s.clone()),
            _ => Err(Error::WrongType(String::from_str("symbol"), self.to_string())),
        }
    }

    /// The number of cells of a container.
    pub fn len(&self) -> (r: Result<usize, Error>)
        ensures
            r matches Ok(n) ==> len_of(self@) == Ok::<nat, Failure>(n as nat),
            r matches Err(e) ==> len_of(self@) == Err::<nat, Failure>(e@),
    {
        match self {
            Lval::Sexpr(children) => {
                assert(cells_of(*children).len() == children@.len());
                Ok(children.len())
            },
            Lval::Qexpr(children) => {
                assert(cells_of(*children).len() == children@.len());
                Ok(children.len())
            },
            Lval::Blispr(children) => {
                assert(cells_of(*children).len() == children@.len());
                Ok(children.len())
            },
            _ => Err(Error::NoChildren),
        }
    }

    /// Appends the printed form of the value to `out`.
    pub fn push_print(&self, out: &mut String)
        ensures
            final(out)@ == old(out)@ + self@.print(),
        decreases self,
    {
        match self {
            Lval::Blispr(_) => {
                out.append("<toplevel>");
            },
            Lval::Fun(Func::Builtin(name, _)) => {
                out.append("<builtin: ");
                out.append(name.as_str());
                push_char(out, '>');
                assert(final(out)@ =~= old(out)@ + self@.print());
            },
            Lval::Fun(Func::Lambda(_, formals, body)) => {
                push_char(out, '(');
                push_char(out, '\\');
                push_char(out, ' ');
                formals.push_print(out);
                push_char(out, ' ');
                body.push_print(out);
                push_char(out, ')');
                assert(final(out)@ =~= old(out)@ + self@.print());
            },
            Lval::Num(n) => {
                push_signed_decimal(out, *n);
            },
            Lval::Sym(s) => {
                out.append(s.as_str());
            },
            Lval::Sexpr(cells) => {
                push_char(out, '(');
                push_cells(cells, out);
                push_char(out, ')');
                assert(final(out)@ =~= old(out)@ + self@.print());
            },
            Lval::Qexpr(cells) => {
                push_char(out, '{');
                push_cells(cells, out);
                push_char(out, '}');
                assert(final(out)@ =~= old(out)@ + self@.print());
            },
        }
    }

    /// The printed form of the value.
    pub fn to_string(&self) -> (s: String)
        ensures
            s@ == self@.print(),
    {
        let mut out = String::new();
        self.push_print(&mut out);
        assert(out@ =~= self@.print());
        out
    }
}

/// The empty program.
pub fn blispr() -> (r: Box<Lval>)
    ensures
        r@ == Value::Blispr(Seq::empty()),
{
    let cells: Vec<Box<Lval>> = Vec::new();
    assert(cells_of(cells) =~= Seq::empty());
    Box::new(Lval::Blispr(cells))
}

/// The builtin function called `name` that runs the operation `f`.
pub fn builtin(f: LBuiltin, name: &str) -> (r: Box<Lval>)
    ensures
        r@ == Value::Builtin(name@, f),
{
    Box::new(Lval::Fun(Func::Builtin(String::from_str(name), f)))
}

/// The function with the bindings `env`, the parameters `formals` and the body `body`.
pub fn lambda(env: LEnvLookup, formals: Box<Lval>, body: Box<Lval>) -> (r: Box<Lval>)
    ensures
        r@ == Value::Lambda(lookup_bindings(env), Box::new(formals@), Box::new(body@)),
{
    Box::new(Lval::Fun(Func::Lambda(env, formals, body)))
}

/// The number `n`.
pub fn num(n: i64) -> (r: Box<Lval>)
    ensures
        r@ == Value::Num(n),
{
    Box::new(Lval::Num(n))
}

/// The symbol called `s`.
pub fn sym(s: &str) -> (r: Box<Lval>)
    ensures
        r@ == Value::Sym(s@),
{
    Box::new(Lval::Sym(String::from_str(s)))
}

/// The empty S-expression.
pub fn sexpr() -> (r: Box<Lval>)
    ensures
        r@ == Value::Sexpr(Seq::empty()),
{
    let cells: Vec<Box<Lval>> = Vec::new();
    assert(cells_of(cells) =~= Seq::empty());
    Box::new(Lval::Sexpr(cells))
}

/// The empty Q-expression.
pub fn qexpr() -> (r: Box<Lval>)
    ensures
        r@ == Value::Qexpr(Seq::empty()),
{
    let cells: Vec<Box<Lval>> = Vec::new();
    assert(cells_of(cells) =~= Seq::empty());
    Box::new(Lval::Qexpr(cells))
}

/// Appends a copy of `x` to the cells of the container `v`.
pub fn add(v: &mut Lval, x: &Lval) -> (r: Result<(), Error>)
    ensures
        old(v)@.cells() matches Some(cs) ==> r is Ok && final(v)@ == old(v)@.with_cells(
            cs.push(x@),
        ),
        old(v)@.cells() is None ==> final(v)@ == old(v)@ && (r matches Err(e) && e@
            == Failure::NoChildren),
{
    let copy = Box::new(x.clone());
    match v {
        Lval::Sexpr(children) => {
            let ghost before = cells_of(*children);
            children.push(copy);
            assert(cells_of(*children) =~= before.push(x@));
            Ok(())
        },
        Lval::Qexpr(children) => {
            let ghost before = cells_of(*children);
            children.push(copy);
            assert(cells_of(*children) =~= before.push(x@));
            Ok(())
        },
        Lval::Blispr(children) => {
            let ghost before = cells_of(*children);
            children.push(copy);
            assert(cells_of(*children) =~= before.push(x@));
            Ok(())
        },
        _ => Err(Error::NoChildren),
    }
}

/// Takes the cell at index `i` out of the container `v`.
pub fn pop(v: &mut Lval, i: usize) -> (r: BlisprResult)
    requires
        old(v)@.cells() matches Some(cs) ==> i < cs.len(),
    ensures
        old(v)@.cells() matches Some(cs) ==> final(v)@ == old(v)@.with_cells(cs.remove(i as int))
            && (r matches Ok(x) && x@ == cs[i as int]),
        old(v)@.cells() is None ==> final(v)@ == old(v)@ && (r matches Err(e) && e@
            == Failure::NoChildren),
{
    match v {
        Lval::Sexpr(children) => {
            let ghost before = cells_of(*children);
            let x = children.remove(i);
            assert(cells_of(*children) =~= before.remove(i as int));
            Ok(x)
        },
        Lval::Qexpr(children) => {
            let ghost before = cells_of(*children);
            let x = children.remove(i);
            assert(cells_of(*children) =~= before.remove(i as int));
            Ok(x)
        },
        Lval::Blispr(children) => {
            let ghost before = cells_of(*children);
            let x = children.remove(i);
            assert(cells_of(*children) =~= before.remove(i as int));
            Ok(x)
        },
        _ => Err(Error::NoChildren),
    }
}

/// Moves every cell of the container `y` to the end of the container `x`, in order.
pub fn join(x: &mut Lval, y: Box<Lval>) -> (r: Result<(), Error>)
    ensures
        old(x)@.cells() is Some && y@.cells() is Some ==> r is Ok && final(x)@ == old(
            x,
        )@.with_cells(old(x)@.cells()->0 + y@.cells()->0),
        old(x)@.cells() is None || y@.cells() is None ==> final(x)@ == old(x)@ && (r matches Err(
            e,
        ) && e@ == Failure::NoChildren),
{
    let mut y = y;
    if x.len().is_err() {
        return Err(Error::NoChildren);
    }
    let ghost start = x@;
    let ghost want = y@.cells()->0;
    let mut n: usize = match y.len() {
        Ok(n) => n,
        Err(e) => {
            return Err(e);
        },
    };
    while n > 0
        invariant
            start.cells() is Some,
            old(x)@ == start,
            y@.cells() matches Some(rest) && rest.len() == n && x@ == start.with_cells(
                start.cells()->0 + want.take(want.len() - n),
            ) && rest =~= want.skip(want.len() - n),
            n <= want.len(),
        decreases n,
    {
        let first = match pop(&mut y, 0) {
            Ok(c) => c,
            Err(e) => {
                return Err(e);
            },
        };
        match self::add(x, &first) {
            Ok(()) => {},
            Err(e) => {
                return Err(e);
            },
        }
        proof {
            let k = want.len() - n;
            assert(want.take(k + 1) =~= want.take(k).push(want[k]));
            assert(start.cells()->0 + want.take(k + 1) =~= (start.cells()->0 + want.take(k)).push(
                want[k],
            ));
            assert(want.skip(k).remove(0) =~= want.skip(k + 1));
        }
        n -= 1;
    }
    assert(want.take(want.len() as int) =~= want);
    Ok(())
}

} // verus!
