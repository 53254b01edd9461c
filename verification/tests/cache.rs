use dns_server::cache::{CacheItem, CacheItemPolicy, MemoryCache, MemoryCacheBase, Retention};
use dns_server::helpers::{SystemTimeProvider, UnixTimeProvider};
use dns_server::models::record::RawRecord;
use dns_server::models::{DnsPacketBase, QueryClass, QueryType};
use std::sync::atomic::{AtomicU64, Ordering};
use std::sync::Arc;
use std::time::Duration;

#[derive(Clone)]
struct Hand(Arc<AtomicU64>);

impl UnixTimeProvider for Hand {
    fn unix_time_as_secs(&self) -> u64 {
        self.0.load(Ordering::SeqCst)
    }
}

fn bundle(tag: u8) -> DnsPacketBase {
    DnsPacketBase {
        answers: vec![RawRecord {
            name: "n".to_string(),
            query_type: QueryType::A,
            query_class: QueryClass::IN,
            ttl: 1,
            rdata_length: 1,
            rdata: vec![tag],
        }],
        authorities: vec![],
        additional: vec![],
    }
}

fn tag_of(value: Option<Arc<DnsPacketBase>>) -> Option<u8> {
    value.map(|base| base.answers[0].rdata[0])
}

fn clock() -> MemoryCacheBase<Hand> {
    MemoryCacheBase::with_clock(Hand(Arc::new(AtomicU64::new(0))))
}

#[test]
fn entry_with_duration_is_found_until_it_expires() {
    let mut cache = clock();
    let key = "example.com".to_string();
    cache.add_at(key.clone(), bundle(1), CacheItemPolicy::AbsoluteExpiration(Duration::from_secs(60)), 1000);
    assert_eq!(tag_of(cache.get_at(&key, 1000)), Some(1));
    assert_eq!(tag_of(cache.get_at(&key, 1059)), Some(1));
    // At creation plus duration the entry is no longer valid, and the lookup removes it.
    assert_eq!(tag_of(cache.get_at(&key, 1060)), None);
    assert_eq!(tag_of(cache.get_at(&key, 1000)), None);
}

#[test]
fn whole_seconds_of_the_duration_count() {
    let mut cache = clock();
    let key = "k".to_string();
    cache.add_at(key.clone(), bundle(1), CacheItemPolicy::AbsoluteExpiration(Duration::from_millis(2999)), 10);
    assert_eq!(tag_of(cache.get_at(&key, 11)), Some(1));
    assert_eq!(tag_of(cache.get_at(&key, 12)), None);
}

#[test]
fn entry_with_duration_zero_is_never_found() {
    let mut cache = clock();
    let key = "k".to_string();
    cache.add_at(key.clone(), bundle(1), CacheItemPolicy::AbsoluteExpiration(Duration::from_secs(0)), 5);
    assert_eq!(tag_of(cache.get_at(&key, 5)), None);
}

#[test]
fn entry_without_expiration_is_found_at_all_times() {
    let mut cache = clock();
    let key = "k".to_string();
    cache.add_at(key.clone(), bundle(4), CacheItemPolicy::NoExpiration, 1);
    assert_eq!(tag_of(cache.get_at(&key, 1)), Some(4));
    assert_eq!(tag_of(cache.get_at(&key, u64::MAX)), Some(4));
    assert_eq!(tag_of(cache.get_at(&key, 0)), Some(4));
}

#[test]
fn a_sum_beyond_the_largest_time_never_expires() {
    let mut cache = clock();
    let key = "k".to_string();
    cache.add_at(key.clone(), bundle(2), CacheItemPolicy::AbsoluteExpiration(Duration::from_secs(u64::MAX)), 10);
    assert_eq!(tag_of(cache.get_at(&key, u64::MAX)), Some(2));
}

#[test]
fn add_overwrites() {
    let mut cache = clock();
    let key = "k".to_string();
    cache.add_at(key.clone(), bundle(1), CacheItemPolicy::NoExpiration, 1);
    cache.add_at(key.clone(), bundle(2), CacheItemPolicy::NoExpiration, 2);
    assert_eq!(tag_of(cache.get_at(&key, 3)), Some(2));
    assert_eq!(tag_of(cache.get_at(&"other".to_string(), 3)), None);
}

#[test]
fn add_drops_what_has_expired() {
    let mut cache = clock();
    let short = "short".to_string();
    let long = "long".to_string();
    cache.add_at(short.clone(), bundle(1), CacheItemPolicy::AbsoluteExpiration(Duration::from_secs(10)), 0);
    cache.add_at(long.clone(), bundle(2), CacheItemPolicy::AbsoluteExpiration(Duration::from_secs(100)), 0);
    cache.add_at("new".to_string(), bundle(3), CacheItemPolicy::NoExpiration, 50);
    // Even at a time at which it would be valid again, the dropped entry is gone.
    assert_eq!(tag_of(cache.get_at(&short, 5)), None);
    assert_eq!(tag_of(cache.get_at(&long, 50)), Some(2));
}

#[test]
fn drop_unused_keeps_what_was_used_within_the_period() {
    let mut cache = clock();
    let used = "used".to_string();
    let idle = "idle".to_string();
    cache.add_at(used.clone(), bundle(1), CacheItemPolicy::NoExpiration, 0);
    cache.add_at(idle.clone(), bundle(2), CacheItemPolicy::NoExpiration, 0);
    assert_eq!(tag_of(cache.get_at(&used, 5000)), Some(1));
    cache.drop_unused_for(3600, 8000);
    assert_eq!(tag_of(cache.get_at(&used, 8000)), Some(1));
    assert_eq!(tag_of(cache.get_at(&idle, 8000)), None);
    // Used exactly one period ago: dropped.
    cache.drop_unused_for(3600, 11600);
    assert_eq!(tag_of(cache.get_at(&used, 11600)), None);
}

#[test]
fn drop_expired_removes_expired_entries_only() {
    let mut cache = clock();
    let a = "a".to_string();
    let b = "b".to_string();
    cache.add_at(a.clone(), bundle(1), CacheItemPolicy::AbsoluteExpiration(Duration::from_secs(5)), 0);
    cache.add_at(b.clone(), bundle(2), CacheItemPolicy::NoExpiration, 0);
    cache.drop_expired(5);
    assert_eq!(tag_of(cache.get_at(&a, 1)), None);
    assert_eq!(tag_of(cache.get_at(&b, 1)), Some(2));
}

#[test]
fn add_and_get_go_by_the_clock() {
    let hand = Arc::new(AtomicU64::new(100));
    let mut cache = MemoryCacheBase::with_clock(Hand(hand.clone()));
    assert_eq!(cache.now(), 100);
    let key = "k".to_string();
    cache.add(key.clone(), bundle(8), CacheItemPolicy::AbsoluteExpiration(Duration::from_secs(30)));
    hand.store(129, Ordering::SeqCst);
    assert_eq!(tag_of(cache.get(&key)), Some(8));
    hand.store(130, Ordering::SeqCst);
    assert_eq!(tag_of(cache.get(&key)), None);
    hand.store(100, Ordering::SeqCst);
    assert_eq!(tag_of(cache.get(&key)), None);
}

#[test]
fn handles_outlive_the_entry() {
    let mut cache = clock();
    let key = "k".to_string();
    cache.add_at(key.clone(), bundle(6), CacheItemPolicy::AbsoluteExpiration(Duration::from_secs(1)), 0);
    let held = cache.get_at(&key, 0);
    assert_eq!(tag_of(cache.get_at(&key, 1)), None);
    assert_eq!(tag_of(held), Some(6));
}

#[test]
fn system_clock_cache() {
    let mut cache = MemoryCache::new();
    // The clock of the machine stands well after the year 2001.
    assert!(cache.now() > 1_000_000_000);
    assert!(SystemTimeProvider.clone().unix_time_as_secs() > 1_000_000_000);
    let key = "k".to_string();
    cache.add(key.clone(), bundle(3), CacheItemPolicy::AbsoluteExpiration(Duration::from_secs(3600)));
    assert_eq!(tag_of(cache.get(&key)), Some(3));
}

#[test]
fn cache_item_validity_and_use() {
    let mut item = CacheItem::new(bundle(1), CacheItemPolicy::AbsoluteExpiration(Duration::from_secs(10)), 100);
    assert_eq!(item.created, 100);
    assert_eq!(item.last_used, 100);
    assert!(item.is_valid(109));
    assert!(!item.is_valid(110));
    assert!(item.is_expired(110));
    assert!(Retention::Valid.keeps(&item, 109));
    assert!(!Retention::Valid.keeps(&item, 110));
    assert!(Retention::UsedWithin(50).keeps(&item, 149));
    assert!(!Retention::UsedWithin(50).keeps(&item, 150));
    let value = item.touch(140);
    assert_eq!(value.answers[0].rdata, vec![1]);
    assert_eq!(item.last_used, 140);
    assert_eq!(item.created, 100);
    assert!(Retention::UsedWithin(50).keeps(&item, 150));
    assert!(Retention::UsedWithin(u64::MAX).keeps(&item, u64::MAX));
}

fn capped(limit: usize) -> MemoryCacheBase<Hand> {
    MemoryCacheBase::with_clock_and_limit(Hand(Arc::new(AtomicU64::new(0))), limit)
}

fn held(cache: &mut MemoryCacheBase<Hand>, keys: &[&str], now: u64) -> usize {
    keys.iter().filter(|key| cache.get_at(&key.to_string(), now).is_some()).count()
}

#[test]
fn add_keeps_the_hard_cap() {
    let mut cache = capped(3);
    for (tag, key) in ["a", "b", "c"].iter().enumerate() {
        cache.add_at(key.to_string(), bundle(tag as u8), CacheItemPolicy::NoExpiration, 0);
    }
    assert_eq!(held(&mut cache, &["a", "b", "c"], 0), 3);
    // All three were used within the hour: one of them has to leave for the new one.
    cache.add_at("d".to_string(), bundle(9), CacheItemPolicy::NoExpiration, 10);
    assert_eq!(tag_of(cache.get_at(&"d".to_string(), 10)), Some(9));
    assert_eq!(held(&mut cache, &["a", "b", "c"], 10), 2);
    for round in 0..20u8 {
        cache.add_at(format!("more{round}"), bundle(round), CacheItemPolicy::NoExpiration, 20);
        assert_eq!(tag_of(cache.get_at(&format!("more{round}"), 20)), Some(round));
    }
    let mut all: Vec<String> = vec!["a".into(), "b".into(), "c".into(), "d".into()];
    all.extend((0..20).map(|round| format!("more{round}")));
    let names: Vec<&str> = all.iter().map(|s| s.as_str()).collect();
    assert_eq!(held(&mut cache, &names, 20), 3);
}

#[test]
fn below_the_cap_every_entry_stays() {
    let mut cache = capped(3);
    cache.add_at("a".to_string(), bundle(1), CacheItemPolicy::NoExpiration, 0);
    cache.add_at("b".to_string(), bundle(2), CacheItemPolicy::NoExpiration, 0);
    cache.add_at("c".to_string(), bundle(3), CacheItemPolicy::NoExpiration, 0);
    assert_eq!(tag_of(cache.get_at(&"a".to_string(), 0)), Some(1));
    assert_eq!(tag_of(cache.get_at(&"b".to_string(), 0)), Some(2));
    assert_eq!(tag_of(cache.get_at(&"c".to_string(), 0)), Some(3));
}

#[test]
fn at_the_cap_idle_entries_leave_first() {
    let mut cache = capped(3);
    for (tag, key) in ["a", "b", "c"].iter().enumerate() {
        cache.add_at(key.to_string(), bundle(tag as u8), CacheItemPolicy::NoExpiration, 0);
    }
    assert_eq!(tag_of(cache.get_at(&"a".to_string(), 5000)), Some(0));
    cache.add_at("d".to_string(), bundle(9), CacheItemPolicy::NoExpiration, 5000);
    assert_eq!(tag_of(cache.get_at(&"a".to_string(), 5000)), Some(0));
    assert_eq!(tag_of(cache.get_at(&"b".to_string(), 5000)), None);
    assert_eq!(tag_of(cache.get_at(&"c".to_string(), 5000)), None);
    assert_eq!(tag_of(cache.get_at(&"d".to_string(), 5000)), Some(9));
}

#[test]
fn a_cap_of_one_keeps_the_newest() {
    let mut cache = capped(1);
    cache.add_at("a".to_string(), bundle(1), CacheItemPolicy::NoExpiration, 0);
    cache.add_at("b".to_string(), bundle(2), CacheItemPolicy::NoExpiration, 0);
    assert_eq!(tag_of(cache.get_at(&"a".to_string(), 0)), None);
    assert_eq!(tag_of(cache.get_at(&"b".to_string(), 0)), Some(2));
    cache.add_at("b".to_string(), bundle(3), CacheItemPolicy::NoExpiration, 0);
    assert_eq!(tag_of(cache.get_at(&"b".to_string(), 0)), Some(3));
}
