//! The concurrent map that holds the cache entries, and what is trusted of it.
//!
//! The map is a `DashMap`. Every function here takes it by exclusive
//! reference, so that no other holder can change it during a call and each
//! call does to the entries what one call does to a map.

use crate::cache::{CacheItem, CacheItemView, Retention};
use crate::models::packet::DnsPacketBase;
use dashmap::DashMap;
use rustc_hash::FxHasher;
use std::hash::BuildHasherDefault;
use std::sync::Arc;
use vstd::prelude::*;

verus! {

/// `dashmap::DashMap`, as a type whose inside is hidden.
#[verifier::external_type_specification]
#[verifier::external_body]
#[verifier::reject_recursive_types(K)]
#[verifier::reject_recursive_types(V)]
#[verifier::reject_recursive_types(S)]
pub struct ExDashMap<K, V, S>(DashMap<K, V, S>);

/// `rustc_hash::FxHasher`, as a type whose inside is hidden.
#[verifier::external_type_specification]
#[verifier::external_body]
pub struct ExFxHasher(FxHasher);

/// `std::hash::BuildHasherDefault`, as a type whose inside is hidden.
#[verifier::external_type_specification]
#[verifier::external_body]
#[verifier::reject_recursive_types(H)]
pub struct ExBuildHasherDefault<H>(BuildHasherDefault<H>);

/// The map of the cache: names to entries, hashed with `FxHasher`.
pub type Store = DashMap<String, CacheItem, BuildHasherDefault<FxHasher>>;

/// What a store holds: the entries by the text of their keys.
pub uninterp spec fn store_entries(store: Store) -> Map<Seq<char>, CacheItemView>;

/// A store without entries.
pub open spec fn no_entries() -> Map<Seq<char>, CacheItemView> {
    Map::empty()
}

/// What is left of `entries` when `rule` has been applied to each entry.
pub open spec fn retained(entries: Map<Seq<char>, CacheItemView>, rule: Retention, now: u64) -> Map<
    Seq<char>,
    CacheItemView,
> {
    Map::new(
        |key: Seq<char>| entries.contains_key(key) && rule.spec_keeps(entries[key], now),
        |key: Seq<char>| entries[key],
    )
}

/// Calls `DashMap::default`. Trusted: the new map is empty.
#[verifier::external_body]
pub(crate) fn store_new() -> (store: Store)
    ensures
        store_entries(store) == no_entries(),
{
    DashMap::default()
}

/// Calls `DashMap::len`. Trusted: the result is the number of entries.
#[verifier::external_body]
pub(crate) fn store_len(store: &Store) -> (count: usize)
    requires
        store_entries(*store).dom().finite(),
    ensures
        count == store_entries(*store).len(),
{
    store.len()
}

/// Calls `DashMap::insert`. Trusted: the entry is in the map under its key,
/// in place of what was there, and the other entries are as they were.
#[verifier::external_body]
pub(crate) fn store_insert(store: &mut Store, key: String, item: CacheItem)
    ensures
        store_entries(*final(store)) == store_entries(*old(store)).insert(key@, item@),
{
    store.insert(key, item);
}

/// Calls `DashMap::remove_if` with `CacheItem::is_expired` as the test.
/// Trusted: the entry under the key is removed if there is one and the test
/// holds of it, and nothing else changes.
#[verifier::external_body]
pub(crate) fn store_remove_if_expired(store: &mut Store, key: &String, now: u64)
    ensures
        store_entries(*final(store)) == if store_entries(*old(store)).contains_key(key@)
            && !Retention::Valid.spec_keeps(store_entries(*old(store))[key@], now) {
            store_entries(*old(store)).remove(key@)
        } else {
            store_entries(*old(store))
        },
{
    store.remove_if(key, |_, item| item.is_expired(now));
}

/// Calls `DashMap::get_mut` and, on the entry that it finds, `CacheItem::touch`.
/// Trusted: if there is an entry under the key, its value is returned and the
/// entry is replaced by the touched one; else nothing is returned and nothing
/// changes.
#[verifier::external_body]
pub(crate) fn store_touch(store: &mut Store, key: &String, now: u64) -> (value: Option<
    Arc<DnsPacketBase>,
>)
    ensures
        match store_entries(*old(store)).get(key@) {
            Some(item) => {
                &&& value is Some
                &&& value->0@ == item.value
                &&& store_entries(*final(store)) == store_entries(*old(store)).insert(
                    key@,
                    item.touched(now),
                )
            },
            None => value is None && store_entries(*final(store)) == store_entries(*old(store)),
        },
{
    store.get_mut(key).map(|mut item| item.touch(now))
}

/// Calls `DashMap::iter` and takes the key of the first entry that the
/// iterator gives, if it gives one. Trusted: a key that comes back is the key
/// of an entry, and none comes back only where the map has no entry. Which key
/// comes back is open. The map is as it was.
#[verifier::external_body]
pub(crate) fn store_any_key(store: &mut Store) -> (key: Option<String>)
    ensures
        store_entries(*final(store)) == store_entries(*old(store)),
        match key {
            Some(k) => store_entries(*old(store)).contains_key(k@),
            None => store_entries(*old(store)) == no_entries(),
        },
{
    store.iter().next().map(|entry| entry.key().clone())
}

/// Calls `DashMap::remove`. Trusted: the entry under the key is gone, if
/// there was one, and the other entries are as they were.
#[verifier::external_body]
pub(crate) fn store_remove(store: &mut Store, key: &String)
    ensures
        store_entries(*final(store)) == store_entries(*old(store)).remove(key@),
{
    store.remove(key);
}

/// Calls `DashMap::retain` with `Retention::keeps` as the test. Trusted: the
/// entries of which the test holds stay as they are, and the others are gone.
#[verifier::external_body]
pub(crate) fn store_retain(store: &mut Store, rule: Retention, now: u64)
    ensures
        store_entries(*final(store)) == retained(store_entries(*old(store)), rule, now),
{
    store.retain(|_, item| rule.keeps(item, now));
}

} // verus!
