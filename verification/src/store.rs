//! The keyed store: byte values under text keys, each for good or until a
//! deadline. Time is a reading of a monotonic clock that the caller hands in,
//! in nanoseconds; an entry past its deadline is removed when it is next
//! asked for, never before.

use vstd::hash_map::StringHashMap;
use vstd::prelude::*;

verus! {

/// The nanoseconds in one millisecond.
pub const NANOS_PER_MILLI: u128 = 1_000_000;

/// What is stored under one key.
pub struct EntryView {
    /// The stored bytes.
    pub value: Seq<u8>,
    /// The clock reading from which on the entry counts as absent, if any.
    pub expires: Option<nat>,
}

/// The deadline of an entry written at `now` to live for `ttl` milliseconds.
pub open spec fn deadline(ttl: Option<u64>, now: u64) -> Option<nat> {
    match ttl {
        Some(millis) => Some((now + millis * NANOS_PER_MILLI) as nat),
        None => None,
    }
}

/// Whether an entry counts as absent at `now`.
pub open spec fn is_expired(entry: EntryView, now: u64) -> bool {
    entry.expires matches Some(at) && at <= now
}

/// The store after `value` was written under `key` at `now`.
pub open spec fn written(
    store: Map<Seq<char>, EntryView>,
    key: Seq<char>,
    value: Seq<u8>,
    ttl: Option<u64>,
    now: u64,
) -> Map<Seq<char>, EntryView> {
    store.insert(key, EntryView { value, expires: deadline(ttl, now) })
}

/// What asking for `key` at `now` returns, and the store after it.
pub open spec fn asked(store: Map<Seq<char>, EntryView>, key: Seq<char>, now: u64) -> (
    Option<Seq<u8>>,
    Map<Seq<char>, EntryView>,
) {
    if !store.contains_key(key) {
        (None, store)
    } else if is_expired(store[key], now) {
        (None, store.remove(key))
    } else {
        (Some(store[key].value), store)
    }
}

/// Time to live: an entry written to live for `millis` milliseconds is handed
/// out, and stays, at every reading of the clock before its deadline; at a
/// reading from the deadline on it is absent and removed, and stays absent at
/// whatever reading it is asked for after that.
pub proof fn lemma_lives_until_deadline(
    store: Map<Seq<char>, EntryView>,
    key: Seq<char>,
    value: Seq<u8>,
    millis: u64,
    written_at: u64,
    now: u64,
    later: u64,
)
    ensures
        ({
            let after = written(store, key, value, Some(millis), written_at);
            let (found, left) = asked(after, key, now);
            if now < written_at + millis * NANOS_PER_MILLI {
                found == Some(value) && left == after
            } else {
                &&& found is None
                &&& left == store.remove(key)
                &&& asked(left, key, later) == (None::<Seq<u8>>, left)
            }
        }),
{
    let after = written(store, key, value, Some(millis), written_at);
    assert(after.remove(key) =~= store.remove(key));
}

/// An entry written without a time to live is handed out, and stays, at every
/// reading of the clock.
pub proof fn lemma_lives_for_good(
    store: Map<Seq<char>, EntryView>,
    key: Seq<char>,
    value: Seq<u8>,
    written_at: u64,
    now: u64,
)
    ensures
        ({
            let after = written(store, key, value, None, written_at);
            asked(after, key, now) == (Some(value), after)
        }),
{
}

/// Overwrite: the second of two writes under one key replaces the first as a
/// whole, the value and the deadline, or the lack of one.
pub proof fn lemma_last_write_wins(
    store: Map<Seq<char>, EntryView>,
    key: Seq<char>,
    first: Seq<u8>,
    first_ttl: Option<u64>,
    first_at: u64,
    second: Seq<u8>,
    second_ttl: Option<u64>,
    second_at: u64,
)
    ensures
        written(written(store, key, first, first_ttl, first_at), key, second, second_ttl, second_at)
            == written(store, key, second, second_ttl, second_at),
{
    assert(written(
        written(store, key, first, first_ttl, first_at),
        key,
        second,
        second_ttl,
        second_at,
    ) =~= written(store, key, second, second_ttl, second_at));
}

/// Writing under one key, or asking for it, leaves what stands under every
/// other key as it was.
pub proof fn lemma_other_keys_stay(
    store: Map<Seq<char>, EntryView>,
    key: Seq<char>,
    other: Seq<char>,
    value: Seq<u8>,
    ttl: Option<u64>,
    now: u64,
)
    requires
        key != other,
    ensures
        written(store, key, value, ttl, now).contains_key(other) == store.contains_key(other),
        asked(store, key, now).1.contains_key(other) == store.contains_key(other),
        store.contains_key(other) ==> written(store, key, value, ttl, now)[other] == store[other]
            && asked(store, key, now).1[other] == store[other],
{
}

struct Entry {
    inner: Vec<u8>,
    expires: Option<u128>,
}

impl View for Entry {
    type V = EntryView;

    closed spec fn view(&self) -> EntryView {
        EntryView {
            value: self.inner@,
            expires: match self.expires {
                Some(at) => Some(at as nat),
                None => None,
            },
        }
    }
}

impl Entry {
    fn new(value: Vec<u8>, ttl: Option<u64>, now: u64) -> (r: Self)
        ensures
            r@ == (EntryView { value: value@, expires: deadline(ttl, now) }),
    {
        let expires: Option<u128> = match ttl {
            Some(millis) => Some(now as u128 + millis as u128 * NANOS_PER_MILLI),
            None => None,
        };
        Self { inner: value, expires }
    }

    fn is_expired(&self, now: u64) -> (r: bool)
        ensures
            r == is_expired(self@, now),
    {
        match self.expires {
            Some(at) => at <= now as u128,
            None => false,
        }
    }
}

/// The store.
pub struct Store {
    inner: StringHashMap<Entry>,
}

impl View for Store {
    type V = Map<Seq<char>, EntryView>;

    closed spec fn view(&self) -> Map<Seq<char>, EntryView> {
        self.inner@.map_values(|entry: Entry| entry@)
    }
}

impl Store {
    /// An empty store.
    pub fn new() -> (r: Self)
        ensures
            r@ == Map::<Seq<char>, EntryView>::empty(),
    {
        let r = Self { inner: StringHashMap::new() };
        assert(r@ =~= Map::<Seq<char>, EntryView>::empty());
        r
    }

    /// The value under `key` at `now`. An entry past its deadline is removed
    /// and counts as absent.
    pub fn get(&mut self, key: &str, now: u64) -> (r: Option<Vec<u8>>)
        ensures
            asked(old(self)@, key@, now) == (
                match r {
                    Some(value) => Some(value@),
                    None => None,
                },
                final(self)@,
            ),
    {
        match self.inner.get(key) {
            None => None,
            Some(entry) => {
                if entry.is_expired(now) {
                    self.inner.remove(key);
                    assert(self@ =~= old(self)@.remove(key@));
                    None
                } else {
                    Some(entry.inner.clone())
                }
            },
        }
    }

    /// Writes `value` under `key` at `now`, to live for `ttl` milliseconds or,
    /// without a `ttl`, for good. What stood under `key` before is replaced,
    /// its deadline with it.
    pub fn set(&mut self, key: String, value: Vec<u8>, ttl: Option<u64>, now: u64)
        ensures
            final(self)@ == written(old(self)@, key@, value@, ttl, now),
    {
        let entry = Entry::new(value, ttl, now);
        self.inner.insert(key, entry);
        assert(self@ =~= written(old(self)@, key@, value@, ttl, now));
    }
}

} // verus!
