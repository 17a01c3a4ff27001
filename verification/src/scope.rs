//! The compiler's tables of names, kept in `FxHashMap`s keyed by the
//! number each name is interned under.
use vstd::prelude::*;
use std::collections::HashMap;
use rustc_hash::FxBuildHasher;
use crate::types::Type;

verus! {

/// `rustc_hash::FxBuildHasher`, the hasher builder of `FxHashMap`.
#[verifier::external_type_specification]
#[verifier::external_body]
pub struct ExFxBuildHasher(FxBuildHasher);

/// Where a variable lives: its slot, the function depth it was declared
/// at, and its type when known (`None` for a function still being
/// compiled).
#[derive(Debug)]
pub struct VarInfo {
    pub slot: usize,
    pub depth: usize,
    pub ty: Option<Type>,
}

impl VarInfo {
    /// A copy of this entry.
    pub fn copy(&self) -> (r: VarInfo)
        ensures
            r == *self,
    {
        VarInfo {
            slot: self.slot,
            depth: self.depth,
            ty: match &self.ty {
                Some(t) => Some(t.copy()),
                None => None,
            },
        }
    }
}

/// Calls `HashMap::insert` on a map built with `FxBuildHasher`. That builder
/// gives the same hasher (`FxHasher::default()`) every time, so hashing is
/// deterministic and the map behaves as a map: afterwards `k` maps to `v`
/// and nothing else changes; the previous value of `k`, if any, comes back.
#[verifier::external_body]
pub(crate) fn fx_insert<V>(m: &mut HashMap<usize, V, FxBuildHasher>, k: usize, v: V) -> (r: Option<V>)
    ensures
        final(m)@ == old(m)@.insert(k, v),
        match r {
            Some(x) => old(m)@.contains_key(k) && x == old(m)@[k],
            None => !old(m)@.contains_key(k),
        },
{
    m.insert(k, v)
}

/// Calls `HashMap::get` on a map built with `FxBuildHasher` (deterministic
/// hashing, see `fx_insert`): the value `k` maps to, if any.
#[verifier::external_body]
pub(crate) fn fx_get<'a, V>(m: &'a HashMap<usize, V, FxBuildHasher>, k: usize) -> (r: Option<&'a V>)
    ensures
        match r {
            Some(x) => m@.contains_key(k) && *x == m@[k],
            None => !m@.contains_key(k),
        },
{
    m.get(&k)
}

/// Calls `HashMap::remove` on a map built with `FxBuildHasher`
/// (deterministic hashing, see `fx_insert`): `k` no longer maps to
/// anything and nothing else changes; its value, if any, comes back.
#[verifier::external_body]
pub(crate) fn fx_remove<V>(m: &mut HashMap<usize, V, FxBuildHasher>, k: usize) -> (r: Option<V>)
    ensures
        final(m)@ == old(m)@.remove(k),
        match r {
            Some(x) => old(m)@.contains_key(k) && x == old(m)@[k],
            None => !old(m)@.contains_key(k),
        },
{
    m.remove(&k)
}

/// Calls `HashMap::contains_key` on a map built with `FxBuildHasher`
/// (deterministic hashing, see `fx_insert`).
#[verifier::external_body]
pub(crate) fn fx_contains_key<V>(m: &HashMap<usize, V, FxBuildHasher>, k: usize) -> (r: bool)
    ensures
        r == m@.contains_key(k),
{
    m.contains_key(&k)
}

} // verus!
