use vstd::prelude::*;
use crate::wgsl_path::{Comp, ModPath};

verus! {

/// A map from paths to indices: `naga::FastHashMap`, a `hashbrown::HashMap` with
/// the Fx hasher. `ModPath`'s derived `Eq` and `Hash` compare its components, so
/// two keys are the same key exactly when their component views are equal.
#[verifier::external_body]
#[derive(Debug)]
pub struct PathIndex {
    map: naga::FastHashMap<ModPath, usize>,
}

/// What a `PathIndex` holds.
pub uninterp spec fn index_contents(m: PathIndex) -> Map<Seq<Comp>, usize>;

/// `hashbrown::HashMap::default`: an empty map.
#[verifier::external_body]
pub(crate) fn index_new() -> (made: PathIndex)
    ensures
        index_contents(made).dom().is_empty(),
{
    PathIndex { map: naga::FastHashMap::default() }
}

/// `hashbrown::HashMap::get`: the value under the key, if there is one.
#[verifier::external_body]
pub(crate) fn index_get(m: &PathIndex, k: &ModPath) -> (r: Option<usize>)
    ensures
        index_contents(*m).contains_key(k.view()) ==> r == Some(index_contents(*m)[k.view()]),
        !index_contents(*m).contains_key(k.view()) ==> r is None,
{
    m.map.get(k).copied()
}

/// `hashbrown::HashMap::insert`: puts the value under the key, replacing what
/// was there.
#[verifier::external_body]
pub(crate) fn index_insert(m: &mut PathIndex, k: ModPath, v: usize)
    ensures
        index_contents(*final(m)) == index_contents(*old(m)).insert(k.view(), v),
{
    m.map.insert(k, v);
}

/// A set of paths, compared by their components: `naga::FastHashSet`, a
/// `hashbrown::HashSet` with the Fx hasher.
#[verifier::external_body]
#[derive(Debug)]
pub struct PathSet {
    set: naga::FastHashSet<ModPath>,
}

/// What a `PathSet` holds.
pub uninterp spec fn set_contents(s: PathSet) -> Set<Seq<Comp>>;

/// `hashbrown::HashSet::default`: an empty set.
#[verifier::external_body]
pub(crate) fn set_new() -> (made: PathSet)
    ensures
        set_contents(made).is_empty(),
{
    PathSet { set: naga::FastHashSet::default() }
}

/// `hashbrown::HashSet::insert`: adds the path.
#[verifier::external_body]
pub(crate) fn set_insert(s: &mut PathSet, p: ModPath)
    ensures
        set_contents(*final(s)) == set_contents(*old(s)).insert(p.view()),
{
    s.set.insert(p);
}

/// The paths of the set, each once, in the order that `hashbrown::HashSet::iter`
/// visits them (which the contract leaves open).
#[verifier::external_body]
pub(crate) fn set_items(s: &PathSet) -> (v: Vec<ModPath>)
    ensures
        forall|i: int| 0 <= i < v@.len() ==> set_contents(*s).contains(#[trigger] v@[i].view()),
        forall|p: Seq<Comp>| set_contents(*s).contains(p) ==> exists|i: int|
            0 <= i < v@.len() && #[trigger] v@[i].view() == p,
        forall|i: int, j: int|
            0 <= i < j < v@.len() ==> #[trigger] v@[i].view() != #[trigger] v@[j].view(),
{
    s.set.iter().cloned().collect()
}

} // verus!
