//! Environments: persistent maps from names to thunks.
//!
//! An environment is a red-black tree of the `rpds` crate, so that a closure
//! captures one by copying a handle. The tree is hidden from the verifier:
//! contracts speak of the map that an environment holds, `env_bindings`, and
//! the four functions below say what the calls into `rpds` do to it.

use rpds::RedBlackTreeMap;
use vstd::prelude::*;

verus! {

/// A persistent map from names to the thunks they are bound to.
#[verifier::external_body]
#[derive(Debug)]
pub struct Env {
    inner: RedBlackTreeMap<String, usize>,
}

/// The bindings that an environment holds.
pub uninterp spec fn env_bindings(e: Env) -> Map<Seq<char>, usize>;

impl View for Env {
    type V = Map<Seq<char>, usize>;

    open spec fn view(&self) -> Map<Seq<char>, usize> {
        env_bindings(*self)
    }
}

/// The map without bindings.
pub open spec fn no_bindings() -> Map<Seq<char>, usize> {
    Map::empty()
}

/// What a map holds for a name, if anything.
pub open spec fn binding_of(m: Map<Seq<char>, usize>, k: Seq<char>) -> Option<usize> {
    if m.contains_key(k) {
        Some(m[k])
    } else {
        None
    }
}

/// `RedBlackTreeMap::new` of `rpds`: a map without entries.
#[verifier::external_body]
pub(crate) fn env_new() -> (r: Env)
    ensures
        env_bindings(r) == no_bindings(),
{
    Env { inner: RedBlackTreeMap::new() }
}

/// `RedBlackTreeMap::get` of `rpds`: the value stored under the key, or
/// `None` where the map has no entry for it.
#[verifier::external_body]
pub(crate) fn env_get(e: &Env, k: &String) -> (r: Option<usize>)
    ensures
        r == binding_of(env_bindings(*e), k@),
{
    e.inner.get(k).copied()
}

/// `RedBlackTreeMap::insert` of `rpds`: a new map that holds the entries of
/// the old one and the entry given, which replaces an entry with the same
/// key. The old map stays as it was.
#[verifier::external_body]
pub(crate) fn env_insert(e: &Env, k: String, v: usize) -> (r: Env)
    ensures
        env_bindings(r) == env_bindings(*e).insert(k@, v),
{
    Env { inner: e.inner.insert(k, v) }
}

/// `RedBlackTreeMap::clone` of `rpds`: a map with the same entries.
#[verifier::external_body]
pub(crate) fn env_clone(e: &Env) -> (r: Env)
    ensures
        env_bindings(r) == env_bindings(*e),
{
    Env { inner: e.inner.clone() }
}

} // verus!
