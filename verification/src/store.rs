//! The per-argument value store: a `vec_map::VecMap` from value position to
//! the raw bytes of the value, read through trusted items.

use vec_map::VecMap;
use vstd::prelude::*;

verus! {

/// `vec_map::VecMap` is opaque to verification; values of it are carried
/// through and read only by the items of this module.
#[verifier::external_type_specification]
#[verifier::external_body]
#[verifier::reject_recursive_types(V)]
pub struct ExVecMap<V>(VecMap<V>);

/// What a `VecMap` of raw values holds: each key with the bytes stored under it.
pub uninterp spec fn vec_map_contents(m: VecMap<Vec<u8>>) -> Map<usize, Seq<u8>>;

/// The values of `m` whose keys are below `n`, in ascending order of the keys.
pub open spec fn values_below(m: Map<usize, Seq<u8>>, n: nat) -> Seq<Seq<u8>>
    decreases n,
{
    if n == 0 {
        Seq::empty()
    } else {
        let k = (n - 1) as usize;
        let lower = values_below(m, (n - 1) as nat);
        if m.contains_key(k) {
            lower.push(m[k])
        } else {
            lower
        }
    }
}

/// All values of `m`, in ascending order of their keys.
pub open spec fn ordered_values(m: Map<usize, Seq<u8>>) -> Seq<Seq<u8>> {
    values_below(m, usize::MAX as nat + 1)
}

/// The values that `m` stores, in ascending order of the keys.
pub open spec fn stored(m: VecMap<Vec<u8>>) -> Seq<Seq<u8>> {
    ordered_values(vec_map_contents(m))
}

/// Calls `VecMap::values` and collects what it yields. The crate documents
/// that the iterator visits all values in ascending order of the keys; the
/// contract states exactly that, item by item, over `vec_map_contents`.
#[verifier::external_body]
pub(crate) fn stored_values<'a>(m: &'a VecMap<Vec<u8>>) -> (r: Vec<&'a Vec<u8>>)
    ensures
        r@.len() == ordered_values(vec_map_contents(*m)).len(),
        forall|i: int|
            0 <= i < r@.len() ==> #[trigger] r@[i]@ == ordered_values(vec_map_contents(*m))[i],
{
    m.values().collect()
}

} // verus!
