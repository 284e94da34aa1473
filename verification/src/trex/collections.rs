//! The small map, searched linearly, that holds the types of the parameters
//! of a rule.

use crate::tesla::expressions::BasicType;
use linear_map::LinearMap;
use vstd::prelude::*;

verus! {

/// The map of the `linear_map` crate.
#[verifier::external_type_specification]
#[verifier::external_body]
#[verifier::reject_recursive_types(K)]
#[verifier::reject_recursive_types(V)]
pub struct ExLinearMap<K, V>(LinearMap<K, V>);

/// The types of the parameters of a rule: the key is the index of the
/// predicate and the index of the parameter among those of the predicate.
pub type ParameterTypes = LinearMap<(usize, usize), BasicType>;

/// What a map of parameter types holds.
pub uninterp spec fn types_in(types: ParameterTypes) -> Map<(usize, usize), BasicType>;

/// `LinearMap::new`: the map is empty.
#[verifier::external_body]
pub(crate) fn new_types() -> (types: ParameterTypes)
    ensures
        types_in(types) == (Map::<(usize, usize), BasicType>::empty()),
{
    LinearMap::new()
}

/// `LinearMap::insert`: the map holds the value under the key, and what it
/// held under other keys.
#[verifier::external_body]
pub(crate) fn insert_type(types: &mut ParameterTypes, key: (usize, usize), ty: BasicType)
    ensures
        types_in(*final(types)) == types_in(*old(types)).insert(key, ty),
{
    types.insert(key, ty);
}

/// `LinearMap::get`: the value under the key, where the map holds one.
#[verifier::external_body]
pub(crate) fn get_type_of(types: &ParameterTypes, key: (usize, usize)) -> (ty: Option<BasicType>)
    ensures
        ty == (if types_in(*types).contains_key(key) {
            Some(types_in(*types)[key])
        } else {
            None
        }),
{
    types.get(&key).copied()
}


} // verus!
