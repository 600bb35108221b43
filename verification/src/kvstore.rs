//! A key-value store whose entries may expire.
//!
//! Time is a count of nanoseconds since the store was made. Every operation
//! exists twice: once with the time as an argument, with an exact contract,
//! and once reading the store's own clock.

use std::time::{Duration, Instant};
use vstd::hash_map::StringHashMap;
use vstd::prelude::*;

verus! {

/// The nanoseconds in one second.
pub const NANOS_PER_SECOND: u128 = 1_000_000_000;

/// A point in time of `std`'s monotonic clock.
#[verifier::external_type_specification]
#[verifier::external_body]
pub struct ExInstant(Instant);

/// `Instant::now` reads the monotonic clock. Nothing is claimed of the
/// result.
pub assume_specification[ Instant::now ]() -> (now: Instant);

/// `Instant::elapsed` is the time from that instant to now. Nothing is
/// claimed of the result.
pub assume_specification[ Instant::elapsed ](start: &Instant) -> (passed: Duration);

/// `Duration::as_nanos` is the duration's length in nanoseconds. Nothing is
/// claimed of the result.
pub assume_specification[ Duration::as_nanos ](length: &Duration) -> (nanos: u128);

/// What the store knows of one key.
pub struct Val {
    val: String,
    ttl: Option<u64>,
    created_at: u128,
}

/// An entry as the contracts see it.
pub struct Entry {
    /// The text stored.
    pub value: Seq<char>,
    /// The seconds that the entry lives, or `None` where it never expires.
    pub ttl: Option<u64>,
    /// When it was written, in nanoseconds since the store was made.
    pub created_at: nat,
}

impl Entry {
    /// The time that has passed since the entry was written; none where the
    /// clock reads earlier than that.
    pub open spec fn age(self, now: nat) -> nat {
        if now >= self.created_at {
            (now - self.created_at) as nat
        } else {
            0
        }
    }

    /// The entry has a time to live and has reached it.
    pub open spec fn expired(self, now: nat) -> bool {
        match self.ttl {
            Some(seconds) => self.age(now) >= seconds * NANOS_PER_SECOND,
            None => false,
        }
    }
}

impl View for Val {
    type V = Entry;

    closed spec fn view(&self) -> Entry {
        Entry { value: self.val@, ttl: self.ttl, created_at: self.created_at as nat }
    }
}

impl Val {
    /// An entry written at the time `created_at`.
    pub fn new(val: &str, ttl: Option<u64>, created_at: u128) -> (entry: Val)
        ensures
            entry@ == (Entry { value: val@, ttl, created_at: created_at as nat }),
    {
        Val { val: val.to_owned(), ttl, created_at }
    }

    /// Whether the entry has expired at the time `now`.
    pub fn expired(&self, now: u128) -> (gone: bool)
        ensures
            gone == self@.expired(now as nat),
    {
        match self.ttl {
            None => false,
            Some(seconds) => {
                let age: u128 = if now >= self.created_at {
                    now - self.created_at
                } else {
                    0
                };
                assert(seconds * NANOS_PER_SECOND <= u64::MAX * NANOS_PER_SECOND) by {
                    assert(seconds <= u64::MAX);
                }
                age >= seconds as u128 * NANOS_PER_SECOND
            },
        }
    }
}

/// What a key-value map holds after a sweep at the time `now`: the entries
/// that have not expired.
pub open spec fn swept(entries: Map<Seq<char>, Entry>, now: nat) -> Map<Seq<char>, Entry> {
    Map::new(
        |key: Seq<char>| entries.contains_key(key) && !entries[key].expired(now),
        |key: Seq<char>| entries[key],
    )
}

/// What a read of `key` sees at the time `now`: the entry, unless there is
/// none or it has expired.
pub open spec fn visible(entries: Map<Seq<char>, Entry>, key: Seq<char>, now: nat) -> Option<
    Entry,
> {
    if entries.contains_key(key) && !entries[key].expired(now) {
        Some(entries[key])
    } else {
        None
    }
}

/// The entry that a write at the time `now` leaves.
pub open spec fn written(value: Seq<char>, ttl: Option<u64>, now: nat) -> Entry {
    Entry { value, ttl, created_at: now }
}

/// The text of an optional string.
pub open spec fn text_of(value: Option<String>) -> Option<Seq<char>> {
    match value {
        Some(text) => Some(text@),
        None => None,
    }
}

/// The value that a read of `key` gives at the time `now`.
pub open spec fn read_value(entries: Map<Seq<char>, Entry>, key: Seq<char>, now: nat) -> Option<
    Seq<char>,
> {
    match visible(entries, key, now) {
        Some(entry) => Some(entry.value),
        None => None,
    }
}

/// The time to live that a read of `key` gives at the time `now`.
pub open spec fn read_ttl(entries: Map<Seq<char>, Entry>, key: Seq<char>, now: nat) -> Option<u64> {
    match visible(entries, key, now) {
        Some(entry) => entry.ttl,
        None => None,
    }
}

/// The keys listed are exactly the keys of the map, each listed once.
spec fn lists_keys(keys: Seq<String>, map: Map<Seq<char>, Val>) -> bool {
    &&& forall|i: int, j: int| 0 <= i < j < keys.len() ==> keys[i]@ != keys[j]@
    &&& forall|i: int| 0 <= i < keys.len() ==> map.contains_key(#[trigger] keys[i]@)
    &&& forall|key: Seq<char>|
        map.contains_key(key) ==> exists|i: int| 0 <= i < keys.len() && #[trigger] keys[i]@ == key
}

/// The key stands among the first `n` keys listed.
spec fn listed_before(keys: Seq<String>, n: int, key: Seq<char>) -> bool {
    exists|j: int| 0 <= j < n && j < keys.len() && #[trigger] keys[j]@ == key
}

/// The store: a map from key to entry, the keys in a list for the sweep, and
/// the clock's starting point.
pub struct KvStore {
    map: StringHashMap<Val>,
    keys: Vec<String>,
    started: Instant,
}

impl View for KvStore {
    type V = Map<Seq<char>, Entry>;

    closed spec fn view(&self) -> Map<Seq<char>, Entry> {
        self.map@.map_values(|v: Val| v@)
    }
}

impl KvStore {
    /// The list of keys and the map agree. Every store that `new` made and
    /// the methods below changed is well formed.
    pub closed spec fn wf(&self) -> bool {
        lists_keys(self.keys@, self.map@)
    }

    /// An empty store. Its clock starts now.
    pub fn new() -> (store: KvStore)
        ensures
            store.wf(),
            store@ == Map::<Seq<char>, Entry>::empty(),
    {
        let store = KvStore {
            map: StringHashMap::new(),
            keys: Vec::new(),
            started: Instant::now(),
        };
        assert(store@ == Map::<Seq<char>, Entry>::empty());
        store
    }

    /// The nanoseconds that the store's clock shows.
    pub fn now(&self) -> (now: u128) {
        self.started.elapsed().as_nanos()
    }

    /// Writes an entry under a key, listing the key where it is new.
    fn write(&mut self, key: &str, entry: Val)
        requires
            old(self).wf(),
        ensures
            final(self).wf(),
            final(self)@ == old(self)@.insert(key@, entry@),
    {
        if !self.map.contains_key(key) {
            self.keys.push(key.to_owned());
        }
        self.map.insert(key.to_owned(), entry);
        proof {
            let n = old(self).keys@.len() as int;
            assert forall|k: Seq<char>| self.map@.contains_key(k) implies exists|i: int|
                0 <= i < self.keys@.len() && #[trigger] self.keys@[i]@ == k by {
                if k == key@ && !old(self).map@.contains_key(key@) {
                    assert(self.keys@[n]@ == k);
                } else {
                    let i = choose|i: int| 0 <= i < n && #[trigger] old(self).keys@[i]@ == k;
                    assert(self.keys@[i]@ == k);
                }
            }
            assert(self@ == old(self)@.insert(key@, entry@));
        }
    }

    /// Writes `value` under `key` at the time `now`, to stay until it is
    /// overwritten.
    pub fn set_at(&mut self, key: &str, value: &str, now: u128)
        requires
            old(self).wf(),
        ensures
            final(self).wf(),
            final(self)@ == old(self)@.insert(key@, written(value@, None, now as nat)),
    {
        self.write(key, Val::new(value, None, now));
    }

    /// Writes `value` under `key` at the time `now`, to live for `ttl`
    /// seconds.
    pub fn setex_at(&mut self, key: &str, value: &str, ttl: u64, now: u128)
        requires
            old(self).wf(),
        ensures
            final(self).wf(),
            final(self)@ == old(self)@.insert(key@, written(value@, Some(ttl), now as nat)),
    {
        self.write(key, Val::new(value, Some(ttl), now));
    }

    /// The value under `key` as a read at the time `now` sees it.
    pub fn get_at(&self, key: &str, now: u128) -> (value: Option<String>)
        ensures
            text_of(value) == read_value(self@, key@, now as nat),
    {
        match self.map.get(key) {
            Some(entry) => {
                if entry.expired(now) {
                    None
                } else {
                    Some(entry.val.clone())
                }
            },
            None => None,
        }
    }

    /// The seconds that the entry under `key` was given to live, as a read at
    /// the time `now` sees it: `None` where there is no entry, where it has
    /// expired, and where it never expires.
    pub fn ttl_at(&self, key: &str, now: u128) -> (seconds: Option<u64>)
        ensures
            seconds == read_ttl(self@, key@, now as nat),
    {
        match self.map.get(key) {
            Some(entry) => {
                if entry.expired(now) {
                    None
                } else {
                    entry.ttl
                }
            },
            None => None,
        }
    }

    /// Removes every entry that has expired at the time `now`.
    pub fn collect_garbage_at(&mut self, now: u128)
        requires
            old(self).wf(),
        ensures
            final(self).wf(),
            final(self)@ == swept(old(self)@, now as nat),
    {
        let ghost before = self.map@;
        let mut kept: Vec<String> = Vec::new();
        let mut i: usize = 0;
        while i < self.keys.len()
            invariant
                i <= self.keys.len(),
                self.keys == old(self).keys,
                lists_keys(self.keys@, before),
                forall|k: Seq<char>| #[trigger]
                    self.map@.contains_key(k) <==> before.contains_key(k) && !(listed_before(
                        self.keys@,
                        i as int,
                        k,
                    ) && before[k]@.expired(now as nat)),
                forall|k: Seq<char>| #[trigger]
                    self.map@.contains_key(k) ==> self.map@[k] == before[k],
                forall|a: int, b: int| 0 <= a < b < kept.len() ==> kept[a]@ != kept[b]@,
                forall|a: int|
                    0 <= a < kept.len() ==> listed_before(self.keys@, i as int, #[trigger] kept[a]@)
                        && !before[kept[a]@]@.expired(now as nat),
                forall|j: int|
                    0 <= j < i && !before[#[trigger] self.keys[j]@]@.expired(now as nat)
                        ==> exists|a: int|
                        0 <= a < kept.len() && #[trigger] kept[a]@ == self.keys[j]@,
            decreases self.keys.len() - i,
        {
            let ghost key = self.keys[i as int]@;
            let ghost map_here = self.map@;
            let ghost kept_here = kept@;
            assert(before.contains_key(key));
            assert(!listed_before(self.keys@, i as int, key));
            assert(map_here.contains_key(key));
            let gone = match self.map.get(self.keys[i].as_str()) {
                Some(entry) => entry.expired(now),
                None => false,
            };
            assert(gone == before[key]@.expired(now as nat));
            if gone {
                self.map.remove(self.keys[i].as_str());
            } else {
                kept.push(self.keys[i].clone());
            }
            proof {
                assert forall|k: Seq<char>| listed_before(self.keys@, i + 1, k) <==> (
                listed_before(self.keys@, i as int, k) || k == key) by {
                    if listed_before(self.keys@, i + 1, k) {
                        let j = choose|j: int|
                            0 <= j < i + 1 && j < self.keys@.len() && #[trigger] self.keys@[j]@
                                == k;
                        if j < i {
                            assert(listed_before(self.keys@, i as int, k));
                        }
                    }
                    if listed_before(self.keys@, i as int, k) {
                        let j = choose|j: int|
                            0 <= j < i && j < self.keys@.len() && #[trigger] self.keys@[j]@ == k;
                        assert(self.keys@[j]@ == k);
                    }
                    if k == key {
                        assert(self.keys@[i as int]@ == k);
                    }
                }
                assert forall|j: int|
                    0 <= j < i + 1 && !before[#[trigger] self.keys[j]@]@.expired(
                        now as nat,
                    ) implies exists|a: int|
                    0 <= a < kept.len() && #[trigger] kept[a]@ == self.keys[j]@ by {
                    if j < i {
                        let a = choose|a: int|
                            0 <= a < kept_here.len() && #[trigger] kept_here[a]@ == self.keys[j]@;
                        assert(kept[a]@ == self.keys[j]@);
                    } else {
                        assert(kept[kept.len() - 1]@ == self.keys[j]@);
                    }
                }
                assert forall|a: int, b: int| 0 <= a < b < kept.len() implies kept[a]@
                    != kept[b]@ by {
                    if b == kept_here.len() {
                        assert(listed_before(self.keys@, i as int, kept_here[a]@));
                    }
                }
            }
            i = i + 1;
        }
        let ghost listed = self.keys@;
        let ghost live = kept@;
        self.keys = kept;
        proof {
            assert forall|k: Seq<char>| self.map@.contains_key(k) implies exists|a: int|
                0 <= a < self.keys@.len() && #[trigger] self.keys@[a]@ == k by {
                let j = choose|j: int|
                    0 <= j < old(self).keys@.len() && #[trigger] old(self).keys@[j]@ == k;
                assert(!listed_before(old(self).keys@, old(self).keys@.len() as int, k)
                    || !before[k]@.expired(now as nat));
                assert(listed_before(old(self).keys@, old(self).keys@.len() as int, k));
                assert(!before[listed[j]@]@.expired(now as nat));
                let a = choose|a: int| 0 <= a < live.len() && #[trigger] live[a]@ == listed[j]@;
                assert(self.keys@[a]@ == k);
            }
            assert forall|a: int| 0 <= a < self.keys@.len() implies self.map@.contains_key(
                #[trigger] self.keys@[a]@,
            ) by {
                let k = self.keys@[a]@;
                assert(listed_before(old(self).keys@, old(self).keys@.len() as int, k));
                let j = choose|j: int|
                    0 <= j < old(self).keys@.len() && #[trigger] old(self).keys@[j]@ == k;
                assert(before.contains_key(old(self).keys@[j]@));
            }
            assert(self@ =~= swept(old(self)@, now as nat)) by {
                assert forall|k: Seq<char>| self@.contains_key(k) <==> swept(
                    old(self)@,
                    now as nat,
                ).contains_key(k) by {
                    if before.contains_key(k) {
                        let j = choose|j: int|
                            0 <= j < old(self).keys@.len() && #[trigger] old(self).keys@[j]@ == k;
                        assert(listed_before(old(self).keys@, old(self).keys@.len() as int, k));
                    }
                }
            }
        }
    }

    /// Writes `value` under `key`, to stay until it is overwritten. The entry
    /// is dated by the store's clock.
    pub fn set(&mut self, key: &str, value: &str)
        requires
            old(self).wf(),
        ensures
            final(self).wf(),
            exists|now: nat|
                final(self)@ == old(self)@.insert(key@, #[trigger] written(value@, None, now)),
    {
        let now = self.now();
        self.set_at(key, value, now);
        assert(final(self)@ == old(self)@.insert(key@, written(value@, None, now as nat)));
    }

    /// Writes `value` under `key`, to live for `ttl` seconds from now by the
    /// store's clock.
    pub fn setex(&mut self, key: &str, value: &str, ttl: u64)
        requires
            old(self).wf(),
        ensures
            final(self).wf(),
            exists|now: nat|
                final(self)@ == old(self)@.insert(key@, #[trigger] written(value@, Some(ttl), now)),
    {
        let now = self.now();
        self.setex_at(key, value, ttl, now);
        assert(final(self)@ == old(self)@.insert(key@, written(value@, Some(ttl), now as nat)));
    }

    /// The value under `key` as a read sees it now, by the store's clock.
    pub fn get(&self, key: &str) -> (value: Option<String>)
        ensures
            exists|now: nat| text_of(value) == #[trigger] read_value(self@, key@, now),
            !self@.contains_key(key@) ==> value is None,
            self@.contains_key(key@) && self@[key@].ttl is None ==> text_of(value) == Some(
                self@[key@].value,
            ),
    {
        let now = self.now();
        let value = self.get_at(key, now);
        assert(text_of(value) == read_value(self@, key@, now as nat));
        value
    }

    /// The seconds that the entry under `key` was given to live, as a read
    /// sees it now, by the store's clock.
    pub fn ttl(&self, key: &str) -> (seconds: Option<u64>)
        ensures
            exists|now: nat| seconds == #[trigger] read_ttl(self@, key@, now),
            !self@.contains_key(key@) ==> seconds is None,
            seconds matches Some(ttl) ==> self@.contains_key(key@) && self@[key@].ttl == Some(ttl),
    {
        let now = self.now();
        let seconds = self.ttl_at(key, now);
        assert(seconds == read_ttl(self@, key@, now as nat));
        seconds
    }

    /// Removes every entry that has expired by now, by the store's clock.
    pub fn collect_garbage(&mut self)
        requires
            old(self).wf(),
        ensures
            final(self).wf(),
            exists|now: nat| final(self)@ == #[trigger] swept(old(self)@, now),
    {
        let now = self.now();
        self.collect_garbage_at(now);
        assert(final(self)@ == swept(old(self)@, now as nat));
    }
}

} // verus!
