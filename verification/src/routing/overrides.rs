//! The maps that survive a rebuild of the tables: manual addresses, and synthetic
//! addresses that DNS answers gave out.

use super::model::Overrides;
use super::types::PeerInfo;
use std::sync::Arc;
use vstd::prelude::*;

verus! {

/// The manual addresses that a map holds.
pub uninterp spec fn overrides_of(m: dashmap::DashMap<(u128, String), u32>) -> Map<
    (u128, Seq<char>),
    u32,
>;

pub open spec fn no_overrides() -> Overrides {
    Map::empty()
}

/// `DashMap::new` makes an empty map.
#[verifier::external_body]
pub(crate) fn override_new() -> (m: dashmap::DashMap<(u128, String), u32>)
    ensures
        overrides_of(m) == no_overrides(),
{
    dashmap::DashMap::new()
}

/// `DashMap::get` finds the value of a key; it is copied out of the guard.
#[verifier::external_body]
pub(crate) fn override_get(
    m: &dashmap::DashMap<(u128, String), u32>,
    net: u128,
    key: String,
) -> (r: Option<u32>)
    ensures
        r == (if overrides_of(*m).dom().contains((net, key@)) {
            Some(overrides_of(*m)[(net, key@)])
        } else {
            None
        }),
{
    m.get(&(net, key)).map(|e| *e)
}

/// `DashMap::insert` sets the value of a key, and leaves the other keys alone.
#[verifier::external_body]
pub(crate) fn override_insert(
    m: &mut dashmap::DashMap<(u128, String), u32>,
    net: u128,
    key: String,
    ip: u32,
)
    ensures
        overrides_of(*final(m)) == overrides_of(*old(m)).insert((net, key@), ip),
{
    m.insert((net, key), ip);
}

/// `DashMap::remove` removes a key, and leaves the other keys alone.
#[verifier::external_body]
pub(crate) fn override_remove(m: &mut dashmap::DashMap<(u128, String), u32>, net: u128, key: String)
    ensures
        overrides_of(*final(m)) == overrides_of(*old(m)).remove((net, key@)),
{
    m.remove(&(net, key));
}

/// The synthetic addresses that a map holds.
pub uninterp spec fn synths_of(m: dashmap::DashMap<u32, Arc<PeerInfo>>) -> Map<u32, Arc<PeerInfo>>;

pub open spec fn no_synths() -> Map<u32, Arc<PeerInfo>> {
    Map::empty()
}

/// `DashMap::new` makes an empty map.
#[verifier::external_body]
pub(crate) fn synth_new() -> (m: dashmap::DashMap<u32, Arc<PeerInfo>>)
    ensures
        synths_of(m) == no_synths(),
{
    dashmap::DashMap::new()
}

/// `DashMap::get` finds the value of a key; it is cloned out of the guard.
#[verifier::external_body]
pub(crate) fn synth_get(m: &dashmap::DashMap<u32, Arc<PeerInfo>>, ip: u32) -> (r: Option<
    Arc<PeerInfo>,
>)
    ensures
        r == (if synths_of(*m).dom().contains(ip) {
            Some(synths_of(*m)[ip])
        } else {
            None
        }),
{
    m.get(&ip).map(|e| e.clone())
}

/// `DashMap::insert` sets the value of a key, and leaves the other keys alone.
#[verifier::external_body]
pub(crate) fn synth_insert(m: &mut dashmap::DashMap<u32, Arc<PeerInfo>>, ip: u32, p: Arc<PeerInfo>)
    ensures
        synths_of(*final(m)) == synths_of(*old(m)).insert(ip, p),
{
    m.insert(ip, p);
}

/// `DashMap::len` counts the keys.
#[verifier::external_body]
pub(crate) fn synth_len(m: &dashmap::DashMap<u32, Arc<PeerInfo>>) -> (n: usize)
    ensures
        n == synths_of(*m).dom().len(),
{
    m.len()
}

} // verus!
