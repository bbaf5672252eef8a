use crate::error::{outcome_of, BlisprResult, Error, Failure};
use crate::lookup::{lookup_bindings, no_bindings, LEnvLookup};
use crate::lval::{builtin, LBuiltin, Lval, Value};
use crate::semantics::{
    binding_symbol, listing, names_in_order, ordered_names, scopes_def, scopes_get, scopes_put,
    with_arith_builtins, with_builtin, with_builtins, with_list_builtins, Bindings, Scopes,
};
use crate::text::{
    lemma_precedes_antisymmetric, lemma_precedes_total, lemma_precedes_transitive, precedes,
    push_char, text_precedes,
};
use vstd::prelude::*;
use vstd::string::*;

verus! {

/// An environment: the bindings of one scope, and the environment around it.
#[derive(Debug, PartialEq)]
pub struct Lenv {
    pub lookup: LEnvLookup,
    pub parent: Option<Box<Lenv>>,
}

/// The chain of scopes that `e` stands for, from `e` itself out to the root.
pub open spec fn scopes_of(e: Lenv) -> Scopes
    decreases e,
{
    match e.parent {
        None => seq![lookup_bindings(e.lookup)],
        Some(p) => seq![lookup_bindings(e.lookup)] + scopes_of(*p),
    }
}

impl View for Lenv {
    type V = Scopes;

    open spec fn view(&self) -> Scopes {
        scopes_of(*self)
    }
}

/// The bindings that a new environment starts from.
pub open spec fn given_bindings(lookup: Option<LEnvLookup>) -> Bindings {
    match lookup {
        Some(m) => lookup_bindings(m),
        None => no_bindings(),
    }
}

/// What looking up `name` in `scopes` gives.
pub open spec fn get_of(scopes: Scopes, name: Seq<char>) -> Result<Value, Failure> {
    match scopes_get(scopes, name) {
        Some(v) => Ok(v),
        None => Err(Failure::UnknownFunction(name)),
    }
}

/// The names that a scope binds can be put in ascending order in one way only.
pub proof fn lemma_names_unique(m: Bindings, a: Seq<Seq<char>>, b: Seq<Seq<char>>)
    requires
        names_in_order(m, a),
        names_in_order(m, b),
    ensures
        a == b,
    decreases a.len(),
{
    if a.len() == 0 {
        if b.len() > 0 {
            assert(m.contains_key(b[0]));
            assert(a.contains(b[0]));
        }
        assert(a =~= b);
    } else {
        assert(m.contains_key(a[0]));
        assert(b.contains(a[0]));
        let j = choose|j: int| 0 <= j < b.len() && b[j] == a[0];
        assert(m.contains_key(b[0]));
        assert(a.contains(b[0]));
        let i = choose|i: int| 0 <= i < a.len() && a[i] == b[0];
        assert(text_precedes(b[0], a[0])) by {
            if j > 0 {
                assert(text_precedes(b[0], b[j]));
            } else {
                lemma_precedes_total(b[0], b[0]);
            }
        }
        assert(text_precedes(a[0], b[0])) by {
            if i > 0 {
                assert(text_precedes(a[0], a[i]));
            } else {
                lemma_precedes_total(a[0], a[0]);
            }
        }
        lemma_precedes_antisymmetric(a[0], b[0]);
        let first = a[0];
        let rest = m.remove(first);
        let ta = a.drop_first();
        let tb = b.drop_first();
        assert(names_in_order(rest, ta)) by {
            assert forall|x: int| 0 <= x < ta.len() implies rest.contains_key(#[trigger] ta[x]) by {
                assert(ta[x] == a[x + 1]);
                assert(m.contains_key(a[x + 1]));
                assert(a[0] != a[x + 1]);
            }
            assert forall|k: Seq<char>| #[trigger] rest.contains_key(k) implies ta.contains(k) by {
                assert(m.contains_key(k));
                assert(a.contains(k));
                let x = choose|x: int| 0 <= x < a.len() && a[x] == k;
                assert(ta[x - 1] == k);
            }
            assert forall|x: int, y: int| 0 <= x < y < ta.len() implies text_precedes(
                #[trigger] ta[x],
                #[trigger] ta[y],
            ) && ta[x] != ta[y] by {
                assert(ta[x] == a[x + 1]);
                assert(ta[y] == a[y + 1]);
            }
        }
        assert(names_in_order(rest, tb)) by {
            assert forall|x: int| 0 <= x < tb.len() implies rest.contains_key(#[trigger] tb[x]) by {
                assert(tb[x] == b[x + 1]);
                assert(m.contains_key(b[x + 1]));
                assert(b[0] != b[x + 1]);
            }
            assert forall|k: Seq<char>| #[trigger] rest.contains_key(k) implies tb.contains(k) by {
                assert(m.contains_key(k));
                assert(b.contains(k));
                let x = choose|x: int| 0 <= x < b.len() && b[x] == k;
                assert(tb[x - 1] == k);
            }
            assert forall|x: int, y: int| 0 <= x < y < tb.len() implies text_precedes(
                #[trigger] tb[x],
                #[trigger] tb[y],
            ) && tb[x] != tb[y] by {
                assert(tb[x] == b[x + 1]);
                assert(tb[y] == b[y + 1]);
            }
        }
        lemma_names_unique(rest, ta, tb);
        assert(a =~= seq![a[0]] + ta);
        assert(b =~= seq![b[0]] + tb);
    }
}

/// The index of the entry whose name comes first.
fn least_entry(entries: &Vec<(&String, &Box<Lval>)>) -> (idx: usize)
    requires
        entries@.len() > 0,
    ensures
        idx < entries@.len(),
        forall|i: int|
            0 <= i < entries@.len() ==> text_precedes(
                entries@[idx as int].0@,
                (#[trigger] entries@[i]).0@,
            ),
{
    let mut best: usize = 0;
    let mut i: usize = 1;
    proof {
        lemma_precedes_total(entries@[0].0@, entries@[0].0@);
    }
    while i < entries.len()
        invariant
            1 <= i <= entries@.len(),
            best < i,
            forall|j: int|
                0 <= j < i ==> text_precedes(entries@[best as int].0@, (#[trigger] entries@[j]).0@),
        decreases entries@.len() - i,
    {
        let ghost old_best = best;
        if !precedes(entries[best].0.as_str(), entries[i].0.as_str()) {
            proof {
                lemma_precedes_total(entries@[best as int].0@, entries@[i as int].0@);
                lemma_precedes_total(entries@[i as int].0@, entries@[i as int].0@);
                assert forall|j: int| 0 <= j < i implies text_precedes(
                    entries@[i as int].0@,
                    (#[trigger] entries@[j]).0@,
                ) by {
                    lemma_precedes_transitive(
                        entries@[i as int].0@,
                        entries@[old_best as int].0@,
                        entries@[j].0@,
                    );
                }
            }
            best = i;
        }
        i += 1;
    }
    best
}

impl Lenv {
    /// An environment stands for at least one scope, and for one more than the one around it.
    pub proof fn lemma_scopes(self)
        ensures
            self@.len() >= 1,
            self@[0] == lookup_bindings(self.lookup),
            self.parent matches Some(p) ==> self@.drop_first() == p@,
            self.parent is None <==> self@.len() == 1,
        decreases self,
    {
        match self.parent {
            None => {},
            Some(p) => {
                p.lemma_scopes();
                assert(self@.drop_first() =~= p@);
            },
        }
    }

    /// A new environment inside `parent`; without a parent, the root, which binds every
    /// builtin to its name.
    pub fn new(lookup: Option<LEnvLookup>, parent: Option<Lenv>) -> (r: Lenv)
        ensures
            parent matches Some(p) ==> r@ == seq![given_bindings(lookup)] + p@,
            parent is None ==> r@ == seq![with_builtins(given_bindings(lookup))],
    {
        let table = match lookup {
            Some(m) => m,
            None => LEnvLookup::new(),
        };
        match parent {
            Some(p) => Lenv { lookup: table, parent: Some(Box::new(p)) },
            None => {
                let mut ret = Lenv { lookup: table, parent: None };
                ret.add_list_builtins();
                ret.add_arith_builtins();
                assert(ret@ =~= seq![with_builtins(given_bindings(lookup))]);
                ret
            },
        }
    }

    /// Binds the definition and list builtins to their names.
    fn add_list_builtins(&mut self)
        requires
            old(self).parent is None,
        ensures
            final(self).parent is None,
            final(self)@ == seq![with_list_builtins(old(self)@[0])],
    {
        self.add_builtin("\\", LBuiltin::Lambda);
        self.add_builtin("def", LBuiltin::PutStub);
        self.add_builtin("=", LBuiltin::PutStub);
        self.add_builtin("cons", LBuiltin::Cons);
        self.add_builtin("eval", LBuiltin::EvalStub);
        self.add_builtin("head", LBuiltin::Head);
        self.add_builtin("init", LBuiltin::Init);
        self.add_builtin("list", LBuiltin::List);
        self.add_builtin("join", LBuiltin::Join);
        self.add_builtin("len", LBuiltin::Len);
        self.add_builtin("tail", LBuiltin::Tail);
        self.add_builtin("exit", LBuiltin::Exit);
        self.add_builtin("printenv", LBuiltin::PrintenvStub);
    }

    /// Binds the arithmetic builtins to their names.
    fn add_arith_builtins(&mut self)
        requires
            old(self).parent is None,
        ensures
            final(self).parent is None,
            final(self)@ == seq![with_arith_builtins(old(self)@[0])],
    {
        self.add_builtin("+", LBuiltin::Add);
        self.add_builtin("add", LBuiltin::Add);
        self.add_builtin("-", LBuiltin::Sub);
        self.add_builtin("sub", LBuiltin::Sub);
        self.add_builtin("*", LBuiltin::Mul);
        self.add_builtin("mul", LBuiltin::Mul);
        self.add_builtin("/", LBuiltin::Div);
        self.add_builtin("div", LBuiltin::Div);
        self.add_builtin("^", LBuiltin::Pow);
        self.add_builtin("pow", LBuiltin::Pow);
        self.add_builtin("%", LBuiltin::Rem);
        self.add_builtin("rem", LBuiltin::Rem);
        self.add_builtin("min", LBuiltin::Min);
        self.add_builtin("max", LBuiltin::Max);
    }

    /// Binds the builtin `func` to `name` in a root.
    fn add_builtin(&mut self, name: &str, func: LBuiltin)
        requires
            old(self).parent is None,
        ensures
            final(self).parent is None,
            final(self)@ == seq![with_builtin(old(self)@[0], name@, func)],
    {
        self.lookup.insert(String::from_str(name), builtin(func, name));
        assert(final(self)@ =~= seq![with_builtin(old(self)@[0], name@, func)]);
    }

    /// A copy of the value bound to `k`: the scope itself is searched first, then the scopes
    /// around it, from the inside out.
    pub fn get(&self, k: &str) -> (r: BlisprResult)
        ensures
            outcome_of(r) == get_of(self@, k@),
        decreases self,
    {
        proof {
            self.lemma_scopes();
        }
        match self.lookup.get(k) {
            Some(v) => Ok(Box::new((**v).clone())),
            None => {
                match &self.parent {
                    None => {
                        assert(scopes_get(self@.drop_first(), k@) is None);
                        Err(Error::UnknownFunction(String::from_str(k)))
                    },
                    Some(p_env) => p_env.get(k),
                }
            },
        }
    }

    /// Binds `k` to `v` in the scope itself.
    pub fn put(&mut self, k: String, v: Box<Lval>)
        ensures
            final(self)@ == scopes_put(old(self)@, k@, v@),
    {
        self.lookup.insert(k, v);
        assert(final(self)@ =~= scopes_put(old(self)@, k@, v@));
    }

    /// Binds `k` to `v` in the root of the chain.
    pub fn def(&mut self, k: String, v: Box<Lval>)
        ensures
            final(self)@ == scopes_def(old(self)@, k@, v@),
        decreases *old(self),
    {
        match &mut self.parent {
            Some(p) => {
                proof {
                    p.lemma_scopes();
                }
                p.def(k, v);
            },
            None => {
                self.lookup.insert(k, v);
            },
        }
        assert(final(self)@ =~= scopes_def(old(self)@, k@, v@));
    }

    /// A Q-expression with one symbol for each binding of the scope itself: the name, a
    /// colon and the printed value, ordered by name.
    pub fn list_all(&self) -> (r: BlisprResult)
        ensures
            outcome_of(r) == Ok::<Value, Failure>(listing(self@[0])),
    {
        proof {
            self.lemma_scopes();
        }
        let ghost m = lookup_bindings(self.lookup);
        let mut entries = self.lookup.entries();
        let mut out: Vec<Box<Lval>> = Vec::new();
        let ghost mut names: Seq<Seq<char>> = Seq::empty();
        while entries.len() > 0
            invariant
                forall|i: int|
                    0 <= i < entries@.len() ==> m.contains_key((#[trigger] entries@[i]).0@)
                        && m[entries@[i].0@] == entries@[i].1@,
                forall|i: int, j: int|
                    0 <= i < j < entries@.len() ==> (#[trigger] entries@[i]).0@
                        != (#[trigger] entries@[j]).0@,
                forall|k: Seq<char>| #[trigger]
                    m.contains_key(k) ==> names.contains(k) || exists|i: int|
                        0 <= i < entries@.len() && (#[trigger] entries@[i]).0@ == k,
                forall|a: int| 0 <= a < names.len() ==> m.contains_key(#[trigger] names[a]),
                forall|a: int, b: int|
                    0 <= a < b < names.len() ==> text_precedes(
                        #[trigger] names[a],
                        #[trigger] names[b],
                    ) && names[a] != names[b],
                forall|a: int, i: int|
                    0 <= a < names.len() && 0 <= i < entries@.len() ==> text_precedes(
                        #[trigger] names[a],
                        (#[trigger] entries@[i]).0@,
                    ) && names[a] != entries@[i].0@,
                out@.len() == names.len(),
                forall|a: int|
                    0 <= a < names.len() ==> (#[trigger] out@[a])@ == binding_symbol(
                        names[a],
                        m[names[a]],
                    ),
            decreases entries@.len(),
        {
            let idx = least_entry(&entries);
            let ghost before = entries@;
            let ghost old_names = names;
            let (name, value) = entries.remove(idx);
            let mut text = name.clone();
            push_char(&mut text, ':');
            value.push_print(&mut text);
            out.push(Box::new(Lval::Sym(text)));
            proof {
                let key = before[idx as int].0@;
                names = old_names.push(key);
                assert(entries@ =~= before.remove(idx as int));
                assert forall|i: int| 0 <= i < entries@.len() implies (#[trigger] entries@[i])
                    == before[if i < idx {
                    i
                } else {
                    i + 1
                }] by {}
                assert forall|k: Seq<char>| #[trigger] m.contains_key(k) implies names.contains(k)
                    || exists|i: int|
                    0 <= i < entries@.len() && (#[trigger] entries@[i]).0@ == k by {
                    if old_names.contains(k) {
                        let a = choose|a: int| 0 <= a < old_names.len() && old_names[a] == k;
                        assert(names[a] == k);
                    } else {
                        let i = choose|i: int| 0 <= i < before.len() && (#[trigger] before[i]).0@ == k;
                        if i == idx {
                            assert(names[old_names.len() as int] == k);
                        } else if i < idx {
                            assert(entries@[i].0@ == k);
                        } else {
                            assert(entries@[i - 1].0@ == k);
                        }
                    }
                }
                assert forall|a: int, b: int| 0 <= a < b < names.len() implies text_precedes(
                    #[trigger] names[a],
                    #[trigger] names[b],
                ) && names[a] != names[b] by {
                    if b == old_names.len() {
                        assert(names[a] == old_names[a]);
                        assert(text_precedes(old_names[a], before[idx as int].0@));
                    }
                }
                assert forall|a: int, i: int|
                    0 <= a < names.len() && 0 <= i < entries@.len() implies text_precedes(
                    #[trigger] names[a],
                    (#[trigger] entries@[i]).0@,
                ) && names[a] != entries@[i].0@ by {
                    let src = if i < idx {
                        i
                    } else {
                        i + 1
                    };
                    assert(entries@[i] == before[src]);
                    if a == old_names.len() {
                        assert(text_precedes(before[idx as int].0@, before[src].0@));
                        if src < idx {
                            assert(before[src].0@ != before[idx as int].0@);
                        } else {
                            assert(before[idx as int].0@ != before[src].0@);
                        }
                    } else {
                        assert(names[a] == old_names[a]);
                    }
                }
                assert forall|a: int| 0 <= a < names.len() implies (#[trigger] out@[a])@
                    == binding_symbol(names[a], m[names[a]]) by {
                    if a == old_names.len() {
                        assert(text@ =~= key + seq![':'] + value@.print());
                    } else {
                        assert(names[a] == old_names[a]);
                    }
                }
            }
        }
        proof {
            assert(names_in_order(m, names)) by {
                assert forall|k: Seq<char>| #[trigger] m.contains_key(k) implies names.contains(
                    k,
                ) by {}
            }
            lemma_names_unique(m, names, ordered_names(m));
            crate::lval::lemma_cells_of(out);
            assert(crate::lval::cells_of(out) =~= listing(m)->Qexpr_0);
        }
        Ok(Box::new(Lval::Qexpr(out)))
    }

    /// Opens a scope with the bindings `lookup` inside the chain.
    pub fn enter(&mut self, lookup: LEnvLookup)
        ensures
            final(self)@ == seq![lookup_bindings(lookup)] + old(self)@,
    {
        let mut outer = Lenv { lookup: LEnvLookup::new(), parent: None };
        core::mem::swap(self, &mut outer);
        let mut inner = Lenv { lookup, parent: Some(Box::new(outer)) };
        core::mem::swap(self, &mut inner);
    }

    /// Closes the innermost scope; the root stays.
    pub fn leave(&mut self)
        ensures
            old(self)@.len() > 1 ==> final(self)@ == old(self)@.drop_first(),
            old(self)@.len() <= 1 ==> final(self)@ == old(self)@,
    {
        proof {
            self.lemma_scopes();
        }
        match self.parent.take() {
            Some(p) => {
                *self = *p;
            },
            None => {},
        }
    }
}

} // verus!
