//! Trusted access to the concurrent maps that hold a request's headers,
//! query parameters and context.
use vstd::prelude::*;

verus! {

#[verifier::external_type_specification]
#[verifier::external_body]
#[verifier::reject_recursive_types(K)]
#[verifier::reject_recursive_types(V)]
#[verifier::reject_recursive_types(S)]
pub struct ExDashMap<K, V, S>(dashmap::DashMap<K, V, S>);

/// A concurrent map from text to text.
pub type StringMap = dashmap::DashMap<String, String>;

/// The entries of a string map.
pub uninterp spec fn string_map_entries(m: StringMap) -> Map<Seq<char>, Seq<char>>;

/// The map with no entries.
pub open spec fn no_entries() -> Map<Seq<char>, Seq<char>> {
    Map::empty()
}

/// Relies on dashmap::DashMap::new, which makes an empty map.
#[verifier::external_body]
pub(crate) fn map_new() -> (fresh: StringMap)
    ensures
        string_map_entries(fresh) == no_entries(),
{
    dashmap::DashMap::new()
}

/// Relies on dashmap::DashMap::insert, which sets the value under `key`,
/// replacing any earlier one.
#[verifier::external_body]
pub(crate) fn map_insert(m: &mut StringMap, key: String, value: String)
    ensures
        string_map_entries(*final(m)) == string_map_entries(*old(m)).insert(key@, value@),
{
    m.insert(key, value);
}

/// Relies on dashmap::DashMap::get, which finds the value under `key`; the
/// value is cloned out.
#[verifier::external_body]
pub(crate) fn map_get(m: &StringMap, key: &str) -> (found: Option<String>)
    ensures
        found is Some <==> string_map_entries(*m).contains_key(key@),
        found matches Some(v) ==> v@ == string_map_entries(*m)[key@],
{
    m.get(key).map(|entry| entry.value().clone())
}

/// Relies on dashmap::DashMap::iter, which visits every entry once, in an
/// order that the hashing decides; the entries are cloned out.
#[verifier::external_body]
pub(crate) fn map_entries(m: &StringMap) -> (listed: Vec<(String, String)>)
    ensures
        forall|i: int|
            0 <= i < listed@.len() ==> string_map_entries(*m).contains_key(
                (#[trigger] listed@[i]).0@,
            ) && string_map_entries(*m)[listed@[i].0@] == listed@[i].1@,
        forall|i: int, j: int|
            0 <= i < j < listed@.len() ==> (#[trigger] listed@[i]).0@ != (#[trigger] listed@[j]).0@,
        forall|k: Seq<char>|
            #[trigger] string_map_entries(*m).contains_key(k) ==> exists|i: int|
                0 <= i < listed@.len() && (#[trigger] listed@[i]).0@ == k,
{
    m.iter().map(|entry| (entry.key().clone(), entry.value().clone())).collect()
}

} // verus!
