use vstd::prelude::*;
use dashmap::DashMap;
use crate::endpoint::Endpoint;
use crate::router::{Binding, PlayerInfo};

verus! {

#[verifier::external_type_specification]
#[verifier::external_body]
#[verifier::reject_recursive_types(K)]
#[verifier::reject_recursive_types(V)]
#[verifier::reject_recursive_types(S)]
pub struct ExDashMap<K, V, S>(DashMap<K, V, S>);

/// What the token table holds: token bytes to user ID.
pub uninterp spec fn token_entries(m: DashMap<Vec<u8>, u64>) -> Map<Seq<u8>, u64>;

/// What the binding table holds: client address to binding.
pub uninterp spec fn ip_entries(m: DashMap<Endpoint, Binding>) -> Map<Endpoint, Binding>;

/// What the reverse table holds: relay socket ID to client address.
pub uninterp spec fn socket_entries(m: DashMap<usize, Endpoint>) -> Map<usize, Endpoint>;

/// What the activity table holds: client address to last activity, in milliseconds.
pub uninterp spec fn counter_entries(m: DashMap<Endpoint, u64>) -> Map<Endpoint, u64>;

/// The user IDs that the player directory holds.
pub uninterp spec fn player_ids(m: DashMap<u64, PlayerInfo>) -> Set<u64>;

/// Relies on `DashMap::new`: a map with no entries.
#[verifier::external_body]
pub(crate) fn tokens_new() -> (r: DashMap<Vec<u8>, u64>)
    ensures
        token_entries(r).dom() == Set::<Seq<u8>>::empty(),
{
    DashMap::new()
}

/// Relies on `DashMap::insert`: the key now maps to the value, other keys are untouched.
#[verifier::external_body]
pub(crate) fn tokens_insert(m: &mut DashMap<Vec<u8>, u64>, k: Vec<u8>, v: u64)
    ensures
        token_entries(*final(m)) == token_entries(*old(m)).insert(k@, v),
{
    m.insert(k, v);
}

/// Relies on `DashMap::get`: the value stored under the key, if any.
#[verifier::external_body]
pub(crate) fn tokens_get(m: &DashMap<Vec<u8>, u64>, k: &[u8]) -> (r: Option<u64>)
    ensures
        r == token_entries(*m).get(k@),
{
    m.get(k).map(|e| *e.value())
}

/// Relies on `DashMap::new`: a map with no entries.
#[verifier::external_body]
pub(crate) fn ips_new() -> (r: DashMap<Endpoint, Binding>)
    ensures
        ip_entries(r).dom() == Set::<Endpoint>::empty(),
{
    DashMap::new()
}

/// Relies on `DashMap::insert`: the key now maps to the value, other keys are untouched.
#[verifier::external_body]
pub(crate) fn ips_insert(m: &mut DashMap<Endpoint, Binding>, k: Endpoint, v: Binding)
    ensures
        ip_entries(*final(m)) == ip_entries(*old(m)).insert(k, v),
{
    m.insert(k, v);
}

/// Relies on `DashMap::get`: a copy of the value stored under the key, if any.
#[verifier::external_body]
pub(crate) fn ips_get(m: &DashMap<Endpoint, Binding>, k: &Endpoint) -> (r: Option<Binding>)
    ensures
        r == ip_entries(*m).get(*k),
{
    m.get(k).map(|e| *e.value())
}

/// Relies on `DashMap::remove`: the key no longer maps to anything, other keys are untouched.
#[verifier::external_body]
pub(crate) fn ips_remove(m: &mut DashMap<Endpoint, Binding>, k: &Endpoint)
    ensures
        ip_entries(*final(m)) == ip_entries(*old(m)).remove(*k),
{
    m.remove(k);
}

/// Relies on `DashMap::len`: the number of entries.
#[verifier::external_body]
pub(crate) fn ips_len(m: &DashMap<Endpoint, Binding>) -> (r: usize)
    requires
        ip_entries(*m).dom().finite(),
    ensures
        r == ip_entries(*m).len(),
{
    m.len()
}

/// Relies on `DashMap::new`: a map with no entries.
#[verifier::external_body]
pub(crate) fn sockets_new() -> (r: DashMap<usize, Endpoint>)
    ensures
        socket_entries(r).dom() == Set::<usize>::empty(),
{
    DashMap::new()
}

/// Relies on `DashMap::insert`: the key now maps to the value, other keys are untouched.
#[verifier::external_body]
pub(crate) fn sockets_insert(m: &mut DashMap<usize, Endpoint>, k: usize, v: Endpoint)
    ensures
        socket_entries(*final(m)) == socket_entries(*old(m)).insert(k, v),
{
    m.insert(k, v);
}

/// Relies on `DashMap::get`: a copy of the value stored under the key, if any.
#[verifier::external_body]
pub(crate) fn sockets_get(m: &DashMap<usize, Endpoint>, k: usize) -> (r: Option<Endpoint>)
    ensures
        r == socket_entries(*m).get(k),
{
    m.get(&k).map(|e| *e.value())
}

/// Relies on `DashMap::remove`: the key no longer maps to anything, other keys are untouched.
#[verifier::external_body]
pub(crate) fn sockets_remove(m: &mut DashMap<usize, Endpoint>, k: usize)
    ensures
        socket_entries(*final(m)) == socket_entries(*old(m)).remove(k),
{
    m.remove(&k);
}

/// Relies on `DashMap::new`: a map with no entries.
#[verifier::external_body]
pub(crate) fn counters_new() -> (r: DashMap<Endpoint, u64>)
    ensures
        counter_entries(r).dom() == Set::<Endpoint>::empty(),
{
    DashMap::new()
}

/// Relies on `DashMap::insert`: the key now maps to the value, other keys are untouched.
#[verifier::external_body]
pub(crate) fn counters_insert(m: &mut DashMap<Endpoint, u64>, k: Endpoint, v: u64)
    ensures
        counter_entries(*final(m)) == counter_entries(*old(m)).insert(k, v),
{
    m.insert(k, v);
}

/// Relies on `DashMap::remove`: the key no longer maps to anything, other keys are untouched.
#[verifier::external_body]
pub(crate) fn counters_remove(m: &mut DashMap<Endpoint, u64>, k: &Endpoint)
    ensures
        counter_entries(*final(m)) == counter_entries(*old(m)).remove(*k),
{
    m.remove(k);
}

/// Relies on `DashMap::iter`: with no writer beside the shared borrow, the
/// walk yields every entry once, in an order that the map does not promise.
#[verifier::external_body]
pub(crate) fn counters_entries(m: &DashMap<Endpoint, u64>) -> (r: Vec<(Endpoint, u64)>)
    ensures
        forall|i: int| 0 <= i < r@.len() ==> #[trigger] counter_entries(*m).contains_key(r@[i].0)
            && counter_entries(*m)[r@[i].0] == r@[i].1,
        forall|a: Endpoint| #[trigger] counter_entries(*m).contains_key(a) ==> exists|i: int| 0 <= i < r@.len() && r@[i].0 == a,
        forall|i: int, j: int| 0 <= i < j < r@.len() ==> r@[i].0 != r@[j].0,
{
    m.iter().map(|e| (*e.key(), *e.value())).collect()
}

/// Relies on `DashMap::new`: a map with no entries.
#[verifier::external_body]
pub(crate) fn players_new() -> (r: DashMap<u64, PlayerInfo>)
    ensures
        player_ids(r) == Set::<u64>::empty(),
{
    DashMap::new()
}

/// Relies on `DashMap::contains_key`: whether the key has an entry.
#[verifier::external_body]
pub(crate) fn players_contains(m: &DashMap<u64, PlayerInfo>, k: u64) -> (r: bool)
    ensures
        r == player_ids(*m).contains(k),
{
    m.contains_key(&k)
}

} // verus!
