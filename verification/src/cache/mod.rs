//! A cache of record bundles by name, with expiry and eviction.

pub mod store;

use crate::cache::store::{
    retained, store_any_key, store_entries, store_insert, store_len, store_new, store_remove,
    store_remove_if_expired, store_retain, store_touch, Store,
};
use crate::helpers::{SystemTimeProvider, UnixTimeProvider};
use crate::models::packet::{BaseView, DnsPacketBase};
use std::sync::Arc;
use std::time::Duration;
use vstd::prelude::*;

verus! {

/// The hard cap of a cache that was given no other: from this number of
/// entries on, an insertion first drops what has not been used for an hour,
/// and no more entries than this are left when it returns.
pub const MAX_CACHE_SIZE: usize = 2_097_152;

/// The period of disuse after which size pressure drops an entry.
pub const DROP_UNUSED_PERIOD_SECS: u64 = 3600;

/// The whole seconds of a duration.
pub uninterp spec fn duration_secs(duration: Duration) -> u64;

/// `Duration::as_secs`. Trusted: the result is the number of whole seconds
/// of the duration, named `duration_secs`.
pub assume_specification[ Duration::as_secs ](duration: &Duration) -> (secs: u64)
    ensures
        secs == duration_secs(*duration),
;

/// `Duration::from_secs`. Trusted: the duration has as many whole seconds
/// as were given.
pub assume_specification[ Duration::from_secs ](secs: u64) -> (duration: Duration)
    ensures
        duration_secs(duration) == secs,
;

/// How long an entry stays valid.
#[derive(Clone, Copy)]
pub enum CacheItemPolicy {
    /// For the given time after its creation.
    AbsoluteExpiration(Duration),
    /// For ever.
    NoExpiration,
}

/// An entry of the cache: a shared bundle of records, how long it stays
/// valid, when it was created and when it was last used.
pub struct CacheItem {
    pub value: Arc<DnsPacketBase>,
    pub policy: CacheItemPolicy,
    pub created: u64,
    pub last_used: u64,
}

impl View for CacheItemPolicy {
    type V = Option<u64>;

    /// The seconds after which an entry expires, if it does.
    open spec fn view(&self) -> Option<u64> {
        match *self {
            CacheItemPolicy::AbsoluteExpiration(duration) => Some(duration_secs(duration)),
            CacheItemPolicy::NoExpiration => None,
        }
    }
}

/// An entry as a plain value. `expires_after` holds the seconds after which
/// the entry expires, counted from its creation, if it expires at all.
pub struct CacheItemView {
    pub value: BaseView,
    pub expires_after: Option<u64>,
    pub created: u64,
    pub last_used: u64,
}

impl View for CacheItem {
    type V = CacheItemView;

    open spec fn view(&self) -> CacheItemView {
        CacheItemView {
            value: self.value@,
            expires_after: self.policy@,
            created: self.created,
            last_used: self.last_used,
        }
    }
}

impl CacheItemView {
    /// An entry that was created at `created` and not used since.
    pub open spec fn fresh(value: BaseView, expires_after: Option<u64>, created: u64) -> CacheItemView {
        CacheItemView { value, expires_after, created, last_used: created }
    }

    /// The entry is valid at `now`: it never expires, or `now` lies before
    /// its creation plus its duration.
    pub open spec fn valid_at(self, now: u64) -> bool {
        match self.expires_after {
            None => true,
            Some(secs) => self.created + secs > now,
        }
    }

    /// The entry was used less than `period` seconds before `now`.
    pub open spec fn used_within(self, period: u64, now: u64) -> bool {
        self.last_used + period > now
    }

    /// The entry after a use at `now`.
    pub open spec fn touched(self, now: u64) -> CacheItemView {
        CacheItemView { last_used: now, ..self }
    }
}

/// A rule by which entries stay in the cache.
#[derive(Clone, Copy)]
pub enum Retention {
    /// Entries that are valid stay.
    Valid,
    /// Entries that were used within the given number of seconds stay.
    UsedWithin(u64),
}

impl Retention {
    /// Whether an entry stays at `now` by this rule.
    pub open spec fn spec_keeps(self, item: CacheItemView, now: u64) -> bool {
        match self {
            Retention::Valid => item.valid_at(now),
            Retention::UsedWithin(period) => item.used_within(period, now),
        }
    }

    /// Whether the entry stays at `now`.
    pub fn keeps(&self, item: &CacheItem, now: u64) -> (stays: bool)
        ensures
            stays == self.spec_keeps(item@, now),
    {
        match self {
            Retention::Valid => item.is_valid(now),
            Retention::UsedWithin(period) => match item.last_used.checked_add(*period) {
                Some(until) => until > now,
                None => true,
            },
        }
    }
}

impl CacheItem {
    /// An entry that was created at `created` and not used since.
    pub fn new(value: DnsPacketBase, policy: CacheItemPolicy, created: u64) -> (item: Self)
        ensures
            item@ == CacheItemView::fresh(value@, policy@, created),
    {
        Self { value: Arc::new(value), policy, created, last_used: created }
    }

    /// Whether the entry is valid at `now`.
    pub fn is_valid(&self, now: u64) -> (valid: bool)
        ensures
            valid == self@.valid_at(now),
    {
        match self.policy {
            CacheItemPolicy::NoExpiration => true,
            CacheItemPolicy::AbsoluteExpiration(duration) => {
                match self.created.checked_add(duration.as_secs()) {
                    Some(until) => until > now,
                    None => true,
                }
            },
        }
    }

    /// Whether the entry has expired at `now`.
    pub fn is_expired(&self, now: u64) -> (expired: bool)
        ensures
            expired == !self@.valid_at(now),
    {
        !self.is_valid(now)
    }

    /// Marks the entry as used at `now` and hands out its value.
    pub fn touch(&mut self, now: u64) -> (value: Arc<DnsPacketBase>)
        ensures
            final(self)@ == old(self)@.touched(now),
            value@ == old(self)@.value,
    {
        self.last_used = now;
        shared(&self.value)
    }
}

/// The entries of a cache: by name, as plain values.
pub type Entries = Map<Seq<char>, CacheItemView>;

/// The entries that an insertion at `now` starts from, in a cache with the
/// hard cap `limit`: what has expired is dropped; then, if as many entries as
/// the cap or more are left, what has not been used for an hour.
pub open spec fn after_drops(entries: Entries, limit: usize, now: u64) -> Entries {
    let valid = retained(entries, Retention::Valid, now);
    if valid.len() >= limit {
        retained(valid, Retention::UsedWithin(DROP_UNUSED_PERIOD_SECS), now)
    } else {
        valid
    }
}

/// `after` are entries that an insertion at `now` can leave of `before`, in
/// a cache with the hard cap `limit`.
///
/// The new entry is there, fresh, and there are no more entries than the cap.
/// Every other entry is one that the drops have left, as it was. Where the
/// drops leave fewer entries than the cap, all of them stay. Where they leave
/// more, further entries leave until there is room for the new one, and no
/// more of them than that; which of them leave is open.
pub open spec fn added(
    before: Entries,
    limit: usize,
    key: Seq<char>,
    value: BaseView,
    expires_after: Option<u64>,
    now: u64,
    after: Entries,
) -> bool {
    let room = after_drops(before, limit, now);
    &&& after.dom().finite()
    &&& after.contains_key(key)
    &&& after[key] == CacheItemView::fresh(value, expires_after, now)
    &&& forall|other: Seq<char>|
        other != key && #[trigger] after.contains_key(other) ==> room.contains_key(other)
            && after[other] == room[other]
    &&& room.len() < limit ==> after == room.insert(
        key,
        CacheItemView::fresh(value, expires_after, now),
    )
    &&& room.len() >= limit ==> after.len() >= limit - 1
    &&& after.len() <= limit
}

/// What a lookup at `now` finds: the value of the entry, if there is one
/// and it is valid.
pub open spec fn found(entries: Entries, key: Seq<char>, now: u64) -> Option<BaseView> {
    if entries.contains_key(key) && entries[key].valid_at(now) {
        Some(entries[key].value)
    } else {
        None
    }
}

/// The entries after a lookup at `now`: an entry that was found is marked as
/// used, one that has expired is gone.
pub open spec fn after_get(entries: Entries, key: Seq<char>, now: u64) -> Entries {
    if !entries.contains_key(key) {
        entries
    } else if entries[key].valid_at(now) {
        entries.insert(key, entries[key].touched(now))
    } else {
        entries.remove(key)
    }
}

/// A cache of record bundles with a clock of its own.
pub struct MemoryCacheBase<T: UnixTimeProvider> {
    clock: T,
    limit: usize,
    cache: Store,
}

/// A cache that goes by the clock of the machine.
pub type MemoryCache = MemoryCacheBase<SystemTimeProvider>;

impl MemoryCacheBase<SystemTimeProvider> {
    /// An empty cache with the hard cap of 2,097,152 entries.
    pub fn new() -> (cache: Self)
        ensures
            cache.wf(),
            cache.limit() == MAX_CACHE_SIZE,
            cache.entries() == Map::<Seq<char>, CacheItemView>::empty(),
    {
        Self::with_clock(SystemTimeProvider)
    }
}

/// Dropping entries leaves finitely many.
proof fn lemma_retained_finite(entries: Entries, rule: Retention, now: u64)
    requires
        entries.dom().finite(),
    ensures
        retained(entries, rule, now).dom().finite(),
{
    assert(retained(entries, rule, now).dom().subset_of(entries.dom()));
    vstd::set_lib::lemma_set_subset_finite(entries.dom(), retained(entries, rule, now).dom());
}

impl<T: UnixTimeProvider> MemoryCacheBase<T> {
    /// There are finitely many entries, and the hard cap admits one at
    /// least. Every cache that was made by a constructor and changed by the
    /// methods below is such.
    pub closed spec fn wf(&self) -> bool {
        store_entries(self.cache).dom().finite() && self.limit > 0
    }

    /// The hard cap: the number of entries that the cache never holds more
    /// of when an insertion returns.
    pub closed spec fn limit(&self) -> usize {
        self.limit
    }

    /// The entries of the cache.
    pub closed spec fn entries(&self) -> Entries {
        store_entries(self.cache)
    }

    /// The clock that the cache goes by.
    pub closed spec fn clock(&self) -> T {
        self.clock
    }

    /// An empty cache that goes by the given clock, with the hard cap of
    /// 2,097,152 entries.
    pub fn with_clock(clock: T) -> (cache: Self)
        ensures
            cache.wf(),
            cache.clock() == clock,
            cache.limit() == MAX_CACHE_SIZE,
            cache.entries() == Map::<Seq<char>, CacheItemView>::empty(),
    {
        Self::with_clock_and_limit(clock, MAX_CACHE_SIZE)
    }

    /// An empty cache that goes by the given clock and never keeps more
    /// than `limit` entries.
    pub fn with_clock_and_limit(clock: T, limit: usize) -> (cache: Self)
        requires
            limit > 0,
        ensures
            cache.wf(),
            cache.clock() == clock,
            cache.limit() == limit,
            cache.entries() == Map::<Seq<char>, CacheItemView>::empty(),
    {
        Self { clock, limit, cache: store_new() }
    }

    /// The time that the clock of the cache shows: what the clock's own
    /// `unix_time_as_secs` returns, whatever that is.
    pub fn now(&self) -> (now: u64)
        ensures
            call_ensures(T::unix_time_as_secs, (&self.clock(),), now),
    {
        self.clock.unix_time_as_secs()
    }

    /// A well-formed cache has finitely many entries, and its hard cap
    /// admits one at least.
    pub proof fn lemma_entries_finite(&self)
        requires
            self.wf(),
        ensures
            self.entries().dom().finite(),
            self.limit() > 0,
    {
    }

    /// Inserts or overwrites an entry, at a time that the clock shows. No
    /// more entries than the hard cap are left.
    pub fn add(&mut self, key: String, value: DnsPacketBase, policy: CacheItemPolicy)
        requires
            old(self).wf(),
        ensures
            final(self).wf(),
            final(self).clock() == old(self).clock(),
            final(self).limit() == old(self).limit(),
            exists|now: u64|
                call_ensures(T::unix_time_as_secs, (&old(self).clock(),), now) && #[trigger] added(
                    old(self).entries(),
                    old(self).limit(),
                    key@,
                    value@,
                    policy@,
                    now,
                    final(self).entries(),
                ),
    {
        let now = self.now();
        self.add_at(key, value, policy, now);
    }

    /// Inserts or overwrites an entry at the time `now`. No more entries
    /// than the hard cap are left.
    pub fn add_at(&mut self, key: String, value: DnsPacketBase, policy: CacheItemPolicy, now: u64)
        requires
            old(self).wf(),
        ensures
            final(self).wf(),
            final(self).clock() == old(self).clock(),
            final(self).limit() == old(self).limit(),
            added(
                old(self).entries(),
                old(self).limit(),
                key@,
                value@,
                policy@,
                now,
                final(self).entries(),
            ),
    {
        self.drop_expired(now);

        if store_len(&self.cache) >= self.limit {
            self.drop_unused_for(DROP_UNUSED_PERIOD_SECS, now);
        }
        self.make_room();
        store_insert(&mut self.cache, key, CacheItem::new(value, policy, now));
    }

    /// Makes room for one entry: while there are as many entries as the
    /// hard cap or more, one of them leaves.
    fn make_room(&mut self)
        requires
            old(self).wf(),
        ensures
            final(self).wf(),
            final(self).clock() == old(self).clock(),
            final(self).limit() == old(self).limit(),
            forall|key: Seq<char>| #[trigger]
                final(self).entries().contains_key(key) ==> old(self).entries().contains_key(key)
                    && final(self).entries()[key] == old(self).entries()[key],
            old(self).entries().len() < old(self).limit() ==> final(self).entries() == old(
                self,
            ).entries(),
            old(self).entries().len() >= old(self).limit() ==> final(self).entries().len() == old(
                self,
            ).limit() - 1,
    {
        let ghost start = self.entries();
        loop
            invariant
                start == old(self).entries(),
                self.wf(),
                self.clock() == old(self).clock(),
                self.limit() == old(self).limit(),
                forall|key: Seq<char>| #[trigger]
                    self.entries().contains_key(key) ==> start.contains_key(key)
                        && self.entries()[key] == start[key],
                start.len() < self.limit() ==> self.entries() == start,
                start.len() >= self.limit() ==> self.entries().len() >= self.limit() - 1,
            decreases self.entries().len(),
        {
            if store_len(&self.cache) < self.limit {
                return ;
            }
            match store_any_key(&mut self.cache) {
                Some(victim) => {
                    store_remove(&mut self.cache, &victim);
                },
                None => {
                    return ;
                },
            }
        }
    }

    /// Looks an entry up, at a time that the clock shows.
    pub fn get(&mut self, key: &String) -> (value: Option<Arc<DnsPacketBase>>)
        requires
            old(self).wf(),
        ensures
            final(self).wf(),
            final(self).clock() == old(self).clock(),
            final(self).limit() == old(self).limit(),
            exists|now: u64|
                {
                    &&& call_ensures(T::unix_time_as_secs, (&old(self).clock(),), now)
                    &&& final(self).entries() == #[trigger] after_get(
                        old(self).entries(),
                        key@,
                        now,
                    )
                    &&& match found(old(self).entries(), key@, now) {
                        Some(v) => value is Some && value->0@ == v,
                        None => value is None,
                    }
                },
    {
        let now = self.now();
        self.get_at(key, now)
    }

    /// Looks an entry up at the time `now`. An entry that has expired is
    /// removed and not found; one that is found is marked as used.
    pub fn get_at(&mut self, key: &String, now: u64) -> (value: Option<Arc<DnsPacketBase>>)
        requires
            old(self).wf(),
        ensures
            final(self).wf(),
            final(self).clock() == old(self).clock(),
            final(self).limit() == old(self).limit(),
            final(self).entries() == after_get(old(self).entries(), key@, now),
            match found(old(self).entries(), key@, now) {
                Some(v) => value is Some && value->0@ == v,
                None => value is None,
            },
    {
        store_remove_if_expired(&mut self.cache, key, now);
        store_touch(&mut self.cache, key, now)
    }

    /// Removes every entry that has expired at `now`.
    pub fn drop_expired(&mut self, now: u64)
        requires
            old(self).wf(),
        ensures
            final(self).wf(),
            final(self).clock() == old(self).clock(),
            final(self).limit() == old(self).limit(),
            final(self).entries() == retained(old(self).entries(), Retention::Valid, now),
    {
        proof {
            lemma_retained_finite(self.entries(), Retention::Valid, now);
        }
        store_retain(&mut self.cache, Retention::Valid, now);
    }

    /// Removes every entry that was last used `period` seconds before `now`
    /// or earlier.
    pub fn drop_unused_for(&mut self, period: u64, now: u64)
        requires
            old(self).wf(),
        ensures
            final(self).wf(),
            final(self).clock() == old(self).clock(),
            final(self).limit() == old(self).limit(),
            final(self).entries() == retained(
                old(self).entries(),
                Retention::UsedWithin(period),
                now,
            ),
    {
        proof {
            lemma_retained_finite(self.entries(), Retention::UsedWithin(period), now);
        }
        store_retain(&mut self.cache, Retention::UsedWithin(period), now);
    }
}

/// An entry that was added with a duration is found by a lookup that comes
/// next, at any time before its creation plus the duration. From that time
/// on it is not found, and the lookup removes it.
pub proof fn lemma_found_while_fresh(
    entries: Entries,
    limit: usize,
    key: Seq<char>,
    value: BaseView,
    duration: u64,
    created: u64,
    after: Entries,
    now: u64,
)
    requires
        added(entries, limit, key, value, Some(duration), created, after),
    ensures
        now < created + duration ==> found(after, key, now) == Some(value),
        now >= created + duration ==> found(after, key, now) is None && !after_get(
            after,
            key,
            now,
        ).contains_key(key),
{
}

/// An entry that was added without expiration is found by a lookup that
/// comes next, whenever it comes.
pub proof fn lemma_found_without_expiration(
    entries: Entries,
    limit: usize,
    key: Seq<char>,
    value: BaseView,
    created: u64,
    after: Entries,
    now: u64,
)
    requires
        added(entries, limit, key, value, None, created, after),
    ensures
        found(after, key, now) == Some(value),
{
}

/// An entry without expiration stays through lookups and through the
/// insertion of other entries, unless the insertion meets as many valid
/// entries as the hard cap or more.
pub proof fn lemma_without_expiration_stays(
    entries: Entries,
    limit: usize,
    key: Seq<char>,
    other: Seq<char>,
    value: BaseView,
    expires_after: Option<u64>,
    after: Entries,
    now: u64,
)
    requires
        entries.contains_key(key),
        entries[key].expires_after is None,
        added(entries, limit, other, value, expires_after, now, after),
    ensures
        found(after_get(entries, other, now), key, now) == Some(entries[key].value),
        retained(entries, Retention::Valid, now).contains_key(key),
        other != key && retained(entries, Retention::Valid, now).len() < limit ==> found(
            after,
            key,
            now,
        ) == Some(entries[key].value),
{
}

/// Where an insertion meets as many valid entries as the hard cap or more
/// (2,097,152 where no other cap was given), no entry but the new one is left
/// that was last used an hour before or earlier, and no more entries than
/// the cap are left in all.
pub proof fn lemma_size_pressure(
    entries: Entries,
    limit: usize,
    key: Seq<char>,
    value: BaseView,
    expires_after: Option<u64>,
    now: u64,
    after: Entries,
    other: Seq<char>,
)
    requires
        retained(entries, Retention::Valid, now).len() >= limit,
        added(entries, limit, key, value, expires_after, now, after),
        other != key,
        after.contains_key(other),
    ensures
        entries.contains_key(other),
        after[other] == entries[other],
        entries[other].valid_at(now),
        entries[other].last_used + DROP_UNUSED_PERIOD_SECS > now,
        after.len() <= limit,
{
}

/// A lookup at `used` that finds an entry marks it, so that dropping what
/// was not used for `period` seconds at `now` keeps the entry if and only if
/// the lookup was less than `period` seconds before.
pub proof fn lemma_lookup_marks_use(
    entries: Entries,
    key: Seq<char>,
    used: u64,
    period: u64,
    now: u64,
)
    requires
        found(entries, key, used) is Some,
    ensures
        retained(after_get(entries, key, used), Retention::UsedWithin(period), now).contains_key(
            key,
        ) <==> used + period > now,
{
}

/// Calls `Arc::clone`. Trusted: the new handle is to the same value.
#[verifier::external_body]
fn shared(value: &Arc<DnsPacketBase>) -> (handle: Arc<DnsPacketBase>)
    ensures
        handle == *value,
{
    Arc::clone(value)
}

} // verus!
