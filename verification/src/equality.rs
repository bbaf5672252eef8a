use crate::lookup::{lookup_bindings, table_same, LEnvLookup};
use crate::lval::{cells_of, lemma_cells_of, Func, Lval};
use vstd::prelude::*;
use vstd::std_specs::cmp::PartialEqSpecImpl;

verus! {

/// Whether the cells of two containers stand for the same values, one by one.
fn cells_equal(a: &Vec<Box<Lval>>, b: &Vec<Box<Lval>>) -> (r: bool)
    ensures
        r == (cells_of(*a) == cells_of(*b)),
    decreases a,
{
    proof {
        lemma_cells_of(*a);
        lemma_cells_of(*b);
    }
    if a.len() != b.len() {
        return false;
    }
    let mut i: usize = 0;
    while i < a.len()
        invariant
            i <= a@.len(),
            a@.len() == b@.len(),
            forall|j: int| 0 <= j < i ==> a@[j]@ == b@[j]@,
        decreases a@.len() - i,
    {
        if !lval_equal(&a[i], &b[i]) {
            proof {
                lemma_cells_of(*a);
                lemma_cells_of(*b);
                assert(cells_of(*a)[i as int] != cells_of(*b)[i as int]);
            }
            return false;
        }
        i += 1;
    }
    proof {
        lemma_cells_of(*a);
        lemma_cells_of(*b);
        assert(cells_of(*a) =~= cells_of(*b));
    }
    true
}

/// Whether two functions are the same: builtins with the same name and operation, or
/// functions with the same bindings, parameters and body.
fn func_equal(a: &Func, b: &Func) -> (r: bool)
    ensures
        r == (Lval::Fun(*a)@ == Lval::Fun(*b)@),
    decreases a,
{
    match a {
        Func::Builtin(name, op) => match b {
            Func::Builtin(other_name, other_op) => *name == *other_name && *op == *other_op,
            Func::Lambda(_, _, _) => false,
        },
        Func::Lambda(env, formals, body) => match b {
            Func::Lambda(other_env, other_f, other_b) => lval_equal(formals, other_f)
                && lval_equal(body, other_b) && table_same(env, other_env),
            Func::Builtin(_, _) => false,
        },
    }
}

/// Whether two values are the same: numbers by their value, symbols by their name, lists
/// cell by cell, functions as `func_equal` says.
fn lval_equal(a: &Lval, b: &Lval) -> (r: bool)
    ensures
        r == (a@ == b@),
    decreases a,
{
    match a {
        Lval::Blispr(cells) => match b {
            Lval::Blispr(other) => cells_equal(cells, other),
            _ => false,
        },
        Lval::Fun(f) => match b {
            Lval::Fun(other) => func_equal(f, other),
            _ => false,
        },
        Lval::Num(n) => match b {
            Lval::Num(other) => *n == *other,
            _ => false,
        },
        Lval::Sym(s) => match b {
            Lval::Sym(other) => *s == *other,
            _ => false,
        },
        Lval::Sexpr(cells) => match b {
            Lval::Sexpr(other) => cells_equal(cells, other),
            _ => false,
        },
        Lval::Qexpr(cells) => match b {
            Lval::Qexpr(other) => cells_equal(cells, other),
            _ => false,
        },
    }
}

impl PartialEq for LEnvLookup {
    fn eq(&self, other: &LEnvLookup) -> (r: bool) {
        table_same(self, other)
    }
}

impl PartialEqSpecImpl for LEnvLookup {
    open spec fn obeys_eq_spec() -> bool {
        true
    }

    open spec fn eq_spec(&self, other: &LEnvLookup) -> bool {
        lookup_bindings(*self) == lookup_bindings(*other)
    }
}

impl PartialEq for Func {
    fn eq(&self, other: &Func) -> (r: bool) {
        func_equal(self, other)
    }
}

impl PartialEqSpecImpl for Func {
    open spec fn obeys_eq_spec() -> bool {
        true
    }

    open spec fn eq_spec(&self, other: &Func) -> bool {
        Lval::Fun(*self)@ == Lval::Fun(*other)@
    }
}

impl PartialEq for Lval {
    fn eq(&self, other: &Lval) -> (r: bool) {
        lval_equal(self, other)
    }
}

impl PartialEqSpecImpl for Lval {
    open spec fn obeys_eq_spec() -> bool {
        true
    }

    open spec fn eq_spec(&self, other: &Lval) -> bool {
        self@ == other@
    }
}

} // verus!
