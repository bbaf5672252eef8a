use crate::lval::{Lval, Value};
use vstd::prelude::*;

verus! {

/// A table from symbol names to values, kept in a `hashbrown::HashMap`.
///
/// The verifier does not look inside the map. What the table holds is named by
/// `lookup_bindings`, and the functions below that call into the map state, without proof,
/// what each call does to those bindings.
#[verifier::external_body]
#[derive(Debug)]
pub struct LEnvLookup {
    table: hashbrown::HashMap<String, Box<Lval>>,
}

/// The bindings that a table holds: for each name in it, taken by its characters, the value
/// bound to the name.
pub uninterp spec fn lookup_bindings(m: LEnvLookup) -> Map<Seq<char>, Value>;

/// The table without any binding.
pub open spec fn no_bindings() -> Map<Seq<char>, Value> {
    Map::empty()
}

/// Whether `entries` lists the bindings of `m`: each of them once, and nothing else.
pub open spec fn lists_bindings(entries: Seq<(&String, &Box<Lval>)>, m: Map<Seq<char>, Value>) -> bool {
    &&& forall|i: int|
        0 <= i < entries.len() ==> m.contains_key((#[trigger] entries[i]).0@) && m[entries[i].0@]
            == entries[i].1@
    &&& forall|i: int, j: int|
        0 <= i < j < entries.len() ==> (#[trigger] entries[i]).0@ != (#[trigger] entries[j]).0@
    &&& forall|k: Seq<char>| #[trigger]
        m.contains_key(k) ==> exists|i: int| 0 <= i < entries.len() && (#[trigger] entries[i]).0@ == k
}

/// Calls `hashbrown::HashMap::new`: the table that comes back holds no binding.
#[verifier::external_body]
fn table_new() -> (r: LEnvLookup)
    ensures
        lookup_bindings(r) == no_bindings(),
{
    LEnvLookup { table: hashbrown::HashMap::new() }
}

/// Calls `hashbrown::HashMap::insert`: afterwards the name is bound to the value, whatever it
/// was bound to before, and every other name is bound as it was.
#[verifier::external_body]
fn table_insert(m: &mut LEnvLookup, k: String, v: Box<Lval>)
    ensures
        lookup_bindings(*final(m)) == lookup_bindings(*old(m)).insert(k@, v@),
{
    m.table.insert(k, v);
}

/// Calls `hashbrown::HashMap::get`: the value bound to the name, or nothing where the table
/// does not hold the name.
#[verifier::external_body]
fn table_get<'a>(m: &'a LEnvLookup, k: &str) -> (r: Option<&'a Box<Lval>>)
    ensures
        r matches Some(v) ==> lookup_bindings(*m).contains_key(k@) && lookup_bindings(*m)[k@] == v@,
        r is None ==> !lookup_bindings(*m).contains_key(k@),
{
    m.table.get(k)
}

/// Calls `hashbrown::HashMap::extend` with the pairs of another table: afterwards each name of
/// `other` is bound as in `other`, and every other name is bound as it was.
#[verifier::external_body]
fn table_extend(m: &mut LEnvLookup, other: LEnvLookup)
    ensures
        lookup_bindings(*final(m)) == lookup_bindings(*old(m)).union_prefer_right(
            lookup_bindings(other),
        ),
{
    m.table.extend(other.table);
}

/// Calls `hashbrown::HashMap::iter`: it visits every binding of the table once, in an order
/// that this contract leaves open.
#[verifier::external_body]
fn table_entries<'a>(m: &'a LEnvLookup) -> (r: Vec<(&'a String, &'a Box<Lval>)>)
    ensures
        lists_bindings(r@, lookup_bindings(*m)),
{
    m.table.iter().collect()
}

/// Calls `hashbrown::HashMap::clone`: the copy holds the bindings of the table it was made
/// from.
#[verifier::external_body]
fn table_clone(m: &LEnvLookup) -> (r: LEnvLookup)
    ensures
        lookup_bindings(r) == lookup_bindings(*m),
{
    LEnvLookup { table: m.table.clone() }
}

/// Calls `==` of `hashbrown::HashMap`, which holds when the two maps have as many pairs and
/// each pair of the first has its key in the second with an equal value; values are equal,
/// by `==` of `Lval`, when they stand for the same value. So the two tables hold the same
/// bindings.
#[verifier::external_body]
pub(crate) fn table_same(a: &LEnvLookup, b: &LEnvLookup) -> (r: bool)
    ensures
        r == (lookup_bindings(*a) == lookup_bindings(*b)),
{
    a.table == b.table
}

impl Clone for LEnvLookup {
    /// A table of its own with the same bindings.
    fn clone(&self) -> (r: LEnvLookup)
        ensures
            lookup_bindings(r) == lookup_bindings(*self),
    {
        table_clone(self)
    }
}

impl LEnvLookup {
    /// The table without any binding.
    pub fn new() -> (r: LEnvLookup)
        ensures
            lookup_bindings(r) == no_bindings(),
    {
        table_new()
    }

    /// Binds `k` to `v`, in place of what `k` was bound to.
    pub fn insert(&mut self, k: String, v: Box<Lval>)
        ensures
            lookup_bindings(*final(self)) == lookup_bindings(*old(self)).insert(k@, v@),
    {
        table_insert(self, k, v)
    }

    /// The value bound to `k`, if there is one.
    pub fn get(&self, k: &str) -> (r: Option<&Box<Lval>>)
        ensures
            r matches Some(v) ==> lookup_bindings(*self).contains_key(k@) && lookup_bindings(
                *self,
            )[k@] == v@,
            r is None ==> !lookup_bindings(*self).contains_key(k@),
    {
        table_get(self, k)
    }

    /// Adds the bindings of `other`; where both bind a name, the binding of `other` stays.
    pub fn extend(&mut self, other: LEnvLookup)
        ensures
            lookup_bindings(*final(self)) == lookup_bindings(*old(self)).union_prefer_right(
                lookup_bindings(other),
            ),
    {
        table_extend(self, other)
    }

    /// The bindings of the table, each of them once, in no particular order.
    pub fn entries(&self) -> (r: Vec<(&String, &Box<Lval>)>)
        ensures
            lists_bindings(r@, lookup_bindings(*self)),
    {
        table_entries(self)
    }
}

} // verus!
