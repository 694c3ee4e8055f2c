//! The key-value store: a map from key to value and optional deadline, with
//! expired entries removed when they are next read.

use crate::clock::Clock;
use vstd::hash_map::StringHashMap;
use vstd::prelude::*;

verus! {

/// Nanoseconds in a millisecond: time to live is given in milliseconds, the
/// clock reads nanoseconds.
pub const NANOS_PER_MILLI: u128 = 1_000_000;

/// What the store keeps under a key.
struct Entry {
    /// The value.
    value: String,
    /// The clock reading, in nanoseconds, from which on the entry counts as
    /// absent. `None` for an entry that never expires.
    deadline: Option<u128>,
}

/// An entry as mathematical data: the value, and the clock reading in
/// nanoseconds from which on the entry counts as absent.
pub struct EntryView {
    pub value: Seq<char>,
    pub deadline: Option<nat>,
}

impl View for Entry {
    type V = EntryView;

    closed spec fn view(&self) -> EntryView {
        EntryView {
            value: self.value@,
            deadline: match self.deadline {
                Some(at) => Some(at as nat),
                None => None,
            },
        }
    }
}

/// The contents of a store: at most one entry for each key.
pub type Contents = Map<Seq<char>, EntryView>;

/// The deadline of an entry written at clock reading `now` with the given
/// time to live in milliseconds.
pub open spec fn deadline_for(ttl: Option<u64>, now: u64) -> Option<nat> {
    match ttl {
        Some(millis) => Some((now + millis * 1_000_000) as nat),
        None => None,
    }
}

/// Whether an entry is still to be honoured at clock reading `now`: it has
/// no deadline, or `now` lies strictly before it.
pub open spec fn is_live(entry: EntryView, now: u64) -> bool {
    match entry.deadline {
        Some(at) => now < at,
        None => true,
    }
}

/// What a read of `key` at clock reading `now` returns: the value of a live
/// entry, and nothing for an expired or a missing one.
pub open spec fn read(contents: Contents, key: Seq<char>, now: u64) -> Option<Seq<char>> {
    if contents.contains_key(key) && is_live(contents[key], now) {
        Some(contents[key].value)
    } else {
        None
    }
}

/// The contents after a read of `key` at clock reading `now`: an expired
/// entry under `key` is gone, everything else is as before.
pub open spec fn after_read(contents: Contents, key: Seq<char>, now: u64) -> Contents {
    if contents.contains_key(key) && !is_live(contents[key], now) {
        contents.remove(key)
    } else {
        contents
    }
}

/// The contents after a write at clock reading `now`: the entry under `key`
/// is the new value with the new deadline, whatever stood there before.
pub open spec fn after_write(
    contents: Contents,
    key: Seq<char>,
    value: Seq<char>,
    ttl: Option<u64>,
    now: u64,
) -> Contents {
    contents.insert(key, EntryView { value, deadline: deadline_for(ttl, now) })
}

/// Reading a key that is live at the later of two clock readings gives its
/// value at both, and neither read changes the contents.
pub proof fn lemma_read_is_idempotent(contents: Contents, key: Seq<char>, first: u64, second: u64)
    requires
        first <= second,
        read(contents, key, second) is Some,
    ensures
        read(contents, key, first) == read(contents, key, second),
        after_read(contents, key, first) == contents,
        read(after_read(contents, key, first), key, second) == read(contents, key, first),
        after_read(after_read(contents, key, first), key, second) == contents,
{
}

/// A key written with a time to live is read back at every clock reading
/// strictly before its deadline. At the deadline and after it the read gives
/// nothing and removes the entry, so that no later read, at whatever clock
/// reading, finds the key again.
pub proof fn lemma_expiry_is_final(
    contents: Contents,
    key: Seq<char>,
    value: Seq<char>,
    millis: u64,
    written: u64,
    early: u64,
    late: u64,
    later: u64,
)
    requires
        early < written + millis * 1_000_000,
        late >= written + millis * 1_000_000,
    ensures
        read(after_write(contents, key, value, Some(millis), written), key, early) == Some(value),
        read(after_write(contents, key, value, Some(millis), written), key, late) is None,
        !after_read(
            after_write(contents, key, value, Some(millis), written),
            key,
            late,
        ).contains_key(key),
        read(
            after_read(after_write(contents, key, value, Some(millis), written), key, late),
            key,
            later,
        ) is None,
{
}

/// A key written without a time to live is read back at every clock
/// reading.
pub proof fn lemma_no_deadline_never_expires(
    contents: Contents,
    key: Seq<char>,
    value: Seq<char>,
    written: u64,
    now: u64,
)
    ensures
        read(after_write(contents, key, value, None, written), key, now) == Some(value),
        after_read(after_write(contents, key, value, None, written), key, now) == after_write(
            contents,
            key,
            value,
            None,
            written,
        ),
{
}

/// What a read does not find at one clock reading it does not find at a
/// later one: a missing key stays missing and an expired entry stays
/// expired as the clock goes on.
pub proof fn lemma_absent_stays_absent(contents: Contents, key: Seq<char>, first: u64, second: u64)
    requires
        first <= second,
        read(contents, key, first) is None,
    ensures
        read(contents, key, second) is None,
        read(after_read(contents, key, first), key, second) is None,
{
}

/// A write replaces the entry under its key entirely: the contents after
/// two writes to one key are those after the second alone, whatever value
/// and deadline the first one left.
pub proof fn lemma_write_replaces(
    contents: Contents,
    key: Seq<char>,
    first_value: Seq<char>,
    first_ttl: Option<u64>,
    first_now: u64,
    value: Seq<char>,
    ttl: Option<u64>,
    now: u64,
)
    ensures
        after_write(
            after_write(contents, key, first_value, first_ttl, first_now),
            key,
            value,
            ttl,
            now,
        ) == after_write(contents, key, value, ttl, now),
{
    assert(after_write(
        after_write(contents, key, first_value, first_ttl, first_now),
        key,
        value,
        ttl,
        now,
    ) =~= after_write(contents, key, value, ttl, now));
}

/// Reads and writes of one key leave every other key as it was.
pub proof fn lemma_other_keys_untouched(
    contents: Contents,
    key: Seq<char>,
    value: Seq<char>,
    ttl: Option<u64>,
    now: u64,
    other: Seq<char>,
    at: u64,
)
    requires
        other != key,
    ensures
        read(after_write(contents, key, value, ttl, now), other, at) == read(contents, other, at),
        read(after_read(contents, key, now), other, at) == read(contents, other, at),
{
}

/// A store of string values under string keys, each with an optional
/// deadline on the store's own clock.
pub struct Store {
    entries: StringHashMap<Entry>,
    clock: Clock,
}

impl View for Store {
    type V = Contents;

    closed spec fn view(&self) -> Contents {
        self.entries@.map_values(|entry: Entry| entry@)
    }
}

impl Store {
    /// The latest reading that the store's clock has given, zero before the
    /// first.
    pub closed spec fn latest_reading(&self) -> u64 {
        self.clock.latest()
    }

    /// An empty store, whose clock starts now.
    pub fn new() -> (store: Store)
        ensures
            store@ == Map::<Seq<char>, EntryView>::empty(),
            store.latest_reading() == 0,
    {
        let store = Store { entries: StringHashMap::new(), clock: Clock::start() };
        assert(store@ =~= Map::<Seq<char>, EntryView>::empty());
        store
    }

    /// Tells whether an entry stands under `key`, live or expired. The
    /// store is left as it is.
    pub fn contains_key(&self, key: &str) -> (r: bool)
        ensures
            r == self@.contains_key(key@),
    {
        self.entries.contains_key(key)
    }

    /// Reads the store's clock, in nanoseconds. The reading is not less
    /// than the one before and is the latest from now on; the contents stay
    /// as they are.
    pub fn now(&mut self) -> (now: u64)
        ensures
            now >= old(self).latest_reading(),
            final(self).latest_reading() == now,
            final(self)@ == old(self)@,
    {
        self.clock.nanos()
    }

    /// Writes `value` under `key` at clock reading `now`, replacing any entry
    /// that stood there. With a time to live the entry expires that many
    /// milliseconds after `now`; without one it never does. The store's own
    /// clock is not read.
    pub fn set_at(&mut self, key: String, value: String, ttl: Option<u64>, now: u64)
        ensures
            final(self)@ == after_write(old(self)@, key@, value@, ttl, now),
            final(self).latest_reading() == old(self).latest_reading(),
    {
        let deadline: Option<u128> = match ttl {
            Some(millis) => Some(now as u128 + millis as u128 * NANOS_PER_MILLI),
            None => None,
        };
        let ghost k = key@;
        let entry = Entry { value, deadline };
        let ghost e = entry@;
        self.entries.insert(key, entry);
        assert(self@ =~= old(self)@.insert(k, e));
    }

    /// Reads `key` at clock reading `now`. A live entry gives its value and
    /// stays; an expired one is removed and gives nothing, as a missing one
    /// does. The store's own clock is not read.
    pub fn get_at(&mut self, key: &str, now: u64) -> (value: Option<String>)
        ensures
            value.deep_view() == read(old(self)@, key@, now),
            final(self)@ == after_read(old(self)@, key@, now),
            final(self).latest_reading() == old(self).latest_reading(),
    {
        let found: Option<String> = match self.entries.get(key) {
            None => { return None; },
            Some(entry) => {
                let expired = match entry.deadline {
                    Some(at) => now as u128 >= at,
                    None => false,
                };
                if expired {
                    None
                } else {
                    Some(entry.value.clone())
                }
            },
        };
        if found.is_none() {
            self.entries.remove(key);
            assert(self@ =~= old(self)@.remove(key@));
        }
        found
    }

    /// Writes `value` under `key` at the present reading of the store's
    /// clock, which may be any that is not less than the one before.
    pub fn set(&mut self, key: String, value: String, ttl: Option<u64>)
        ensures
            final(self).latest_reading() >= old(self).latest_reading(),
            final(self)@ == after_write(
                old(self)@,
                key@,
                value@,
                ttl,
                final(self).latest_reading(),
            ),
    {
        let now = self.now();
        self.set_at(key, value, ttl, now);
    }

    /// Reads `key` at the present reading of the store's clock, which may be
    /// any that is not less than the one before.
    pub fn get(&mut self, key: &str) -> (value: Option<String>)
        ensures
            final(self).latest_reading() >= old(self).latest_reading(),
            value.deep_view() == read(old(self)@, key@, final(self).latest_reading()),
            final(self)@ == after_read(old(self)@, key@, final(self).latest_reading()),
    {
        let now = self.now();
        self.get_at(key, now)
    }
}

} // verus!
