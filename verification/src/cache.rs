//! A bounded response cache with least-recently-used eviction.
//!
//! The cache is modelled as the sequence of its entries in order of use:
//! the entry used longest ago comes first, the one used last comes last.
//! A lookup that hits and a store both count as a use.

use crate::text::same_text;
use vstd::prelude::*;

verus! {

/// One stored answer, as the contracts see it.
pub struct EntryView {
    pub key: Seq<char>,
    pub value: Seq<char>,
    pub inserted_at: u64,
}

/// One stored answer: the prompt, the completion obtained for it, and the
/// instant at which it was stored.
#[derive(Debug, PartialEq, Eq)]
pub struct CacheEntry {
    pub key: String,
    pub value: String,
    pub inserted_at: u64,
}

impl View for CacheEntry {
    type V = EntryView;

    open spec fn view(&self) -> EntryView {
        EntryView { key: self.key@, value: self.value@, inserted_at: self.inserted_at }
    }
}

/// Whether position `i` of `entries` holds `key`.
pub open spec fn holds_at(entries: Seq<EntryView>, key: Seq<char>, i: int) -> bool {
    0 <= i < entries.len() && entries[i].key == key
}

/// Whether `entries` holds `key`.
pub open spec fn holds(entries: Seq<EntryView>, key: Seq<char>) -> bool {
    exists|i: int| holds_at(entries, key, i)
}

/// A position of `key` in `entries`: the only one, where no key occurs twice.
pub open spec fn slot(entries: Seq<EntryView>, key: Seq<char>) -> int {
    choose|i: int| holds_at(entries, key, i)
}

/// The entry stored under `key`, if there is one.
pub open spec fn entry_of(entries: Seq<EntryView>, key: Seq<char>) -> Option<EntryView> {
    if holds(entries, key) {
        Some(entries[slot(entries, key)])
    } else {
        None
    }
}

/// The text stored under `key`, if there is one.
pub open spec fn lookup(entries: Seq<EntryView>, key: Seq<char>) -> Option<Seq<char>> {
    if holds(entries, key) {
        Some(entries[slot(entries, key)].value)
    } else {
        None
    }
}

/// No key occurs twice.
pub open spec fn distinct_keys(entries: Seq<EntryView>) -> bool {
    forall|i: int, j: int| 0 <= i < j < entries.len() ==> entries[i].key != entries[j].key
}

/// The entries after a lookup of `key`: a hit moves the entry to the
/// most-recently-used end and changes nothing else.
pub open spec fn after_get(entries: Seq<EntryView>, key: Seq<char>) -> Seq<EntryView> {
    if holds(entries, key) {
        entries.remove(slot(entries, key)).push(entries[slot(entries, key)])
    } else {
        entries
    }
}

/// The entries after storing `value` under `key` at `now`, in a cache of
/// `capacity` entries. An entry under the same key is replaced; otherwise,
/// in a full cache, the least recently used entry makes room. Either way the
/// new entry is the most recently used one. A cache of no capacity stores
/// nothing.
pub open spec fn after_set(
    entries: Seq<EntryView>,
    key: Seq<char>,
    value: Seq<char>,
    now: u64,
    capacity: nat,
) -> Seq<EntryView> {
    let fresh = EntryView { key, value, inserted_at: now };
    if capacity == 0 {
        entries
    } else if holds(entries, key) {
        entries.remove(slot(entries, key)).push(fresh)
    } else if entries.len() >= capacity {
        entries.drop_first().push(fresh)
    } else {
        entries.push(fresh)
    }
}

/// The view of an optional text.
pub open spec fn text_of(text: Option<String>) -> Option<Seq<char>> {
    match text {
        Some(t) => Some(t@),
        None => None,
    }
}

/// Where no key occurs twice, the position that holds a key is its slot.
pub proof fn lemma_slot_is(entries: Seq<EntryView>, key: Seq<char>, i: int)
    requires
        distinct_keys(entries),
        holds_at(entries, key, i),
    ensures
        holds(entries, key),
        slot(entries, key) == i,
{
    let j = slot(entries, key);
    assert(holds_at(entries, key, j));
    if j < i {
        assert(entries[j].key != entries[i].key);
    } else if i < j {
        assert(entries[i].key != entries[j].key);
    }
}

/// A response cache of bounded size.
pub struct AppCache {
    capacity: usize,
    entries: Vec<CacheEntry>,
}

impl View for AppCache {
    type V = Seq<EntryView>;

    /// The entries, least recently used first.
    closed spec fn view(&self) -> Seq<EntryView> {
        Seq::new(self.entries@.len(), |i: int| self.entries@[i]@)
    }
}

impl AppCache {
    /// The largest number of entries the cache holds.
    pub closed spec fn capacity(&self) -> nat {
        self.capacity as nat
    }

    /// The cache holds no key twice and no more entries than its capacity.
    pub open spec fn wf(&self) -> bool {
        &&& distinct_keys(self@)
        &&& self@.len() <= self.capacity()
    }

    /// An empty cache that will hold up to `capacity` entries.
    pub fn new(capacity: usize) -> (cache: Self)
        ensures
            cache.wf(),
            cache@ == Seq::<EntryView>::empty(),
            cache.capacity() == capacity,
    {
        let cache = AppCache { capacity, entries: Vec::new() };
        proof {
            assert(cache@ =~= Seq::<EntryView>::empty());
        }
        cache
    }

    /// The position of `key`, if the cache holds it.
    fn find(&self, key: &str) -> (found: Option<usize>)
        ensures
            match found {
                Some(i) => holds_at(self@, key@, i as int),
                None => !holds(self@, key@),
            },
    {
        let mut i: usize = 0;
        while i < self.entries.len()
            invariant
                i <= self.entries.len(),
                forall|j: int| 0 <= j < i ==> !holds_at(self@, key@, j),
            decreases self.entries.len() - i,
        {
            if same_text(self.entries[i].key.as_str(), key) {
                return Some(i);
            }
            i += 1;
        }
        None
    }

    /// The number of entries held.
    pub fn len(&self) -> (count: usize)
        ensures
            count == self@.len(),
    {
        self.entries.len()
    }

    /// The largest number of entries the cache holds.
    pub fn max_entries(&self) -> (limit: usize)
        ensures
            limit == self.capacity(),
    {
        self.capacity
    }

    /// The entry under `key`, if there is one. Looking at an entry in this
    /// way does not count as a use of it.
    pub fn peek(&self, key: &str) -> (found: Option<&CacheEntry>)
        requires
            self.wf(),
        ensures
            match found {
                Some(entry) => entry_of(self@, key@) == Some(entry@),
                None => entry_of(self@, key@) is None,
            },
    {
        match self.find(key) {
            Some(i) => {
                proof {
                    lemma_slot_is(self@, key@, i as int);
                }
                Some(&self.entries[i])
            },
            None => None,
        }
    }

    /// Looks `key` up. A hit returns the stored text, exactly as it was
    /// stored, and makes the entry the most recently used one; no entry's
    /// text changes.
    pub fn get(&mut self, key: &str) -> (found: Option<String>)
        requires
            old(self).wf(),
        ensures
            final(self).wf(),
            final(self).capacity() == old(self).capacity(),
            text_of(found) == lookup(old(self)@, key@),
            final(self)@ == after_get(old(self)@, key@),
    {
        match self.find(key) {
            Some(i) => {
                proof {
                    lemma_slot_is(self@, key@, i as int);
                }
                let entry = self.entries.remove(i);
                let text = entry.value.clone();
                self.entries.push(entry);
                proof {
                    assert(self@ =~= after_get(old(self)@, key@));
                    lemma_after_get_wf(old(self)@, key@);
                }
                Some(text)
            },
            None => None,
        }
    }

    /// Stores `value` under `key`, as the most recently used entry. An entry
    /// under the same key is replaced. Otherwise, when the cache is full,
    /// the least recently used entry is evicted first.
    pub fn set(&mut self, key: String, value: String, now: u64)
        requires
            old(self).wf(),
        ensures
            final(self).wf(),
            final(self).capacity() == old(self).capacity(),
            final(self)@ == after_set(old(self)@, key@, value@, now, old(self).capacity()),
    {
        if self.capacity == 0 {
            return ;
        }
        match self.find(key.as_str()) {
            Some(i) => {
                proof {
                    lemma_slot_is(self@, key@, i as int);
                }
                self.entries.remove(i);
            },
            None => {
                if self.entries.len() >= self.capacity {
                    self.entries.remove(0);
                }
            },
        }
        self.entries.push(CacheEntry { key, value, inserted_at: now });
        proof {
            assert(self@ =~= after_set(old(self)@, key@, value@, now, old(self).capacity()));
            lemma_after_set_wf(old(self)@, key@, value@, now, old(self).capacity());
        }
    }
}

/// A lookup keeps the cache well formed.
pub proof fn lemma_after_get_wf(entries: Seq<EntryView>, key: Seq<char>)
    requires
        distinct_keys(entries),
    ensures
        distinct_keys(after_get(entries, key)),
        after_get(entries, key).len() == entries.len(),
{
    if holds(entries, key) {
        let at = slot(entries, key);
        let after = after_get(entries, key);
        assert(holds_at(entries, key, at));
        assert forall|i: int, j: int| 0 <= i < j < after.len() implies after[i].key
            != after[j].key by {
            let from_i = if i < at { i } else { i + 1 };
            assert(after[i] == entries[from_i]);
            if j < after.len() - 1 {
                let from_j = if j < at { j } else { j + 1 };
                assert(after[j] == entries[from_j]);
            } else {
                assert(after[j] == entries[at]);
            }
        }
    }
}

/// A store keeps the cache well formed.
pub proof fn lemma_after_set_wf(
    entries: Seq<EntryView>,
    key: Seq<char>,
    value: Seq<char>,
    now: u64,
    capacity: nat,
)
    requires
        distinct_keys(entries),
        entries.len() <= capacity,
    ensures
        distinct_keys(after_set(entries, key, value, now, capacity)),
        after_set(entries, key, value, now, capacity).len() <= capacity,
{
    let after = after_set(entries, key, value, now, capacity);
    if capacity > 0 {
        if holds(entries, key) {
            let at = slot(entries, key);
            assert(holds_at(entries, key, at));
            assert forall|i: int, j: int| 0 <= i < j < after.len() implies after[i].key
                != after[j].key by {
                let from_i = if i < at { i } else { i + 1 };
                assert(after[i] == entries[from_i]);
                if j < after.len() - 1 {
                    let from_j = if j < at { j } else { j + 1 };
                    assert(after[j] == entries[from_j]);
                } else {
                    assert(after[j].key == entries[at].key);
                }
            }
        } else {
            let shift: int = if entries.len() >= capacity { 1 } else { 0 };
            assert forall|i: int, j: int| 0 <= i < j < after.len() implies after[i].key
                != after[j].key by {
                assert(after[i] == entries[i + shift]);
                if j < after.len() - 1 {
                    assert(after[j] == entries[j + shift]);
                } else {
                    assert(!holds_at(entries, key, i + shift));
                }
            }
        }
    }
}

/// One use of the cache, as the laws replay it.
pub enum CacheOp {
    Lookup { key: Seq<char> },
    Store { key: Seq<char>, value: Seq<char>, at: u64 },
}

/// The entries of a cache of `capacity` entries that started empty and has
/// served `ops`, in order.
pub open spec fn after_ops(ops: Seq<CacheOp>, capacity: nat) -> Seq<EntryView>
    decreases ops.len(),
{
    if ops.len() == 0 {
        Seq::empty()
    } else {
        let before = after_ops(ops.drop_last(), capacity);
        match ops.last() {
            CacheOp::Lookup { key } => after_get(before, key),
            CacheOp::Store { key, value, at } => after_set(before, key, value, at, capacity),
        }
    }
}

/// Whether `op` stores something under `key`.
pub open spec fn writes(op: CacheOp, key: Seq<char>) -> bool {
    match op {
        CacheOp::Lookup { .. } => false,
        CacheOp::Store { key: written, .. } => written == key,
    }
}

/// A lookup neither adds a key nor loses one.
pub proof fn lemma_get_keeps_keys(entries: Seq<EntryView>, key: Seq<char>, other: Seq<char>)
    ensures
        holds(after_get(entries, key), other) <==> holds(entries, other),
{
    if holds(entries, key) {
        let at = slot(entries, key);
        let after = after_get(entries, key);
        assert(holds_at(entries, key, at));
        if holds(after, other) {
            let i = choose|i: int| holds_at(after, other, i);
            let from = if i == after.len() - 1 {
                at
            } else if i < at {
                i
            } else {
                i + 1
            };
            assert(after[i] == entries[from]);
            assert(holds_at(entries, other, from));
        }
        if holds(entries, other) {
            let i = choose|i: int| holds_at(entries, other, i);
            let to = if i == at {
                after.len() - 1
            } else if i < at {
                i
            } else {
                i - 1
            };
            assert(after[to] == entries[i]);
            assert(holds_at(after, other, to));
        }
    }
}

/// A store adds no key but its own.
pub proof fn lemma_set_adds_only_its_key(
    entries: Seq<EntryView>,
    key: Seq<char>,
    value: Seq<char>,
    now: u64,
    capacity: nat,
    other: Seq<char>,
)
    requires
        other != key,
        holds(after_set(entries, key, value, now, capacity), other),
    ensures
        holds(entries, other),
{
    let after = after_set(entries, key, value, now, capacity);
    let i = choose|i: int| holds_at(after, other, i);
    if capacity > 0 {
        if holds(entries, key) {
            let at = slot(entries, key);
            assert(holds_at(entries, key, at));
            let from = if i < at { i } else { i + 1 };
            assert(after[i] == entries[from]);
            assert(holds_at(entries, other, from));
        } else if entries.len() >= capacity {
            assert(after[i] == entries[i + 1]);
            assert(holds_at(entries, other, i + 1));
        } else {
            assert(after[i] == entries[i]);
            assert(holds_at(entries, other, i));
        }
    }
}

/// A lookup changes no stored entry: whatever was stored under any key is
/// still stored under it, unchanged.
pub proof fn law_get_changes_no_entry(entries: Seq<EntryView>, key: Seq<char>, other: Seq<char>)
    requires
        distinct_keys(entries),
    ensures
        entry_of(after_get(entries, key), other) == entry_of(entries, other),
        lookup(after_get(entries, key), other) == lookup(entries, other),
{
    lemma_get_keeps_keys(entries, key, other);
    lemma_after_get_wf(entries, key);
    if holds(entries, key) && holds(entries, other) {
        let at = slot(entries, key);
        let after = after_get(entries, key);
        assert(holds_at(entries, key, at));
        let i = slot(entries, other);
        assert(holds_at(entries, other, i));
        let to = if i == at {
            after.len() - 1
        } else if i < at {
            i
        } else {
            i - 1
        };
        assert(after[to] == entries[i]);
        lemma_slot_is(after, other, to);
    }
}

/// A store turns out at most the least recently used entry, and that one
/// only to make room in a full cache for a key that is new. Every other
/// entry stays as it was.
pub proof fn law_set_keeps_others(
    entries: Seq<EntryView>,
    key: Seq<char>,
    value: Seq<char>,
    now: u64,
    capacity: nat,
    other: Seq<char>,
)
    requires
        distinct_keys(entries),
        entries.len() <= capacity,
        capacity >= 1,
        other != key,
        holds(entries, other),
        holds(entries, key) || entries.len() < capacity || other != entries[0].key,
    ensures
        entry_of(after_set(entries, key, value, now, capacity), other) == entry_of(entries, other),
        lookup(after_set(entries, key, value, now, capacity), other) == lookup(entries, other),
{
    let after = after_set(entries, key, value, now, capacity);
    lemma_after_set_wf(entries, key, value, now, capacity);
    let i = slot(entries, other);
    assert(holds_at(entries, other, i));
    if holds(entries, key) {
        let at = slot(entries, key);
        assert(holds_at(entries, key, at));
        let to = if i < at { i } else { i - 1 };
        assert(after[to] == entries[i]);
        lemma_slot_is(after, other, to);
    } else if entries.len() >= capacity {
        assert(i != 0);
        assert(after[i - 1] == entries[i]);
        lemma_slot_is(after, other, i - 1);
    } else {
        assert(after[i] == entries[i]);
        lemma_slot_is(after, other, i);
    }
}

/// In a cache that can hold anything, a lookup right after a store finds
/// exactly what was stored.
pub proof fn law_get_after_set(
    entries: Seq<EntryView>,
    key: Seq<char>,
    value: Seq<char>,
    now: u64,
    capacity: nat,
)
    requires
        distinct_keys(entries),
        entries.len() <= capacity,
        capacity >= 1,
    ensures
        lookup(after_set(entries, key, value, now, capacity), key) == Some(value),
        entry_of(after_set(entries, key, value, now, capacity), key) == Some(
            EntryView { key, value, inserted_at: now },
        ),
{
    let after = after_set(entries, key, value, now, capacity);
    lemma_after_set_wf(entries, key, value, now, capacity);
    assert(after.last() == EntryView { key, value, inserted_at: now });
    lemma_slot_is(after, key, after.len() - 1);
}

/// A key that was never stored is absent, whatever else the cache served.
pub proof fn law_unwritten_key_absent(ops: Seq<CacheOp>, capacity: nat, key: Seq<char>)
    requires
        forall|i: int| 0 <= i < ops.len() ==> !writes(#[trigger] ops[i], key),
    ensures
        !holds(after_ops(ops, capacity), key),
        lookup(after_ops(ops, capacity), key) is None,
    decreases ops.len(),
{
    if ops.len() > 0 {
        let earlier = ops.drop_last();
        assert forall|i: int| 0 <= i < earlier.len() implies !writes(#[trigger] earlier[i], key) by {
            assert(earlier[i] == ops[i]);
        }
        law_unwritten_key_absent(earlier, capacity, key);
        let before = after_ops(earlier, capacity);
        assert(!writes(ops[ops.len() - 1], key));
        match ops.last() {
            CacheOp::Lookup { key: read } => {
                lemma_get_keeps_keys(before, read, key);
            },
            CacheOp::Store { key: written, value, at } => {
                if holds(after_set(before, written, value, at, capacity), key) {
                    lemma_set_adds_only_its_key(before, written, value, at, capacity, key);
                }
            },
        }
    } else {
        assert(forall|i: int| !holds_at(Seq::<EntryView>::empty(), key, i));
    }
}

/// Whatever a cache served, it holds no key twice and no more entries than
/// its capacity.
pub proof fn law_cache_stays_bounded(ops: Seq<CacheOp>, capacity: nat)
    ensures
        distinct_keys(after_ops(ops, capacity)),
        after_ops(ops, capacity).len() <= capacity,
    decreases ops.len(),
{
    if ops.len() > 0 {
        law_cache_stays_bounded(ops.drop_last(), capacity);
        let before = after_ops(ops.drop_last(), capacity);
        match ops.last() {
            CacheOp::Lookup { key } => {
                lemma_after_get_wf(before, key);
            },
            CacheOp::Store { key, value, at } => {
                lemma_after_set_wf(before, key, value, at, capacity);
            },
        }
    }
}

/// Storing a new key in a full cache evicts exactly one entry, the least
/// recently used one. Every other entry stays as it was, so where the cache
/// holds two entries or more, the most recently used one is never the one
/// evicted.
pub proof fn law_full_cache_evicts_least_recent(
    entries: Seq<EntryView>,
    key: Seq<char>,
    value: Seq<char>,
    now: u64,
    capacity: nat,
)
    requires
        distinct_keys(entries),
        entries.len() == capacity,
        capacity >= 1,
        !holds(entries, key),
    ensures
        after_set(entries, key, value, now, capacity).len() == capacity,
        !holds(after_set(entries, key, value, now, capacity), entries[0].key),
        forall|i: int|
            1 <= i < entries.len() ==> entry_of(
                after_set(entries, key, value, now, capacity),
                (#[trigger] entries[i]).key,
            ) == Some(entries[i]),
        capacity >= 2 ==> entry_of(
            after_set(entries, key, value, now, capacity),
            entries.last().key,
        ) == Some(entries.last()),
{
    let after = after_set(entries, key, value, now, capacity);
    assert(holds_at(entries, entries[0].key, 0));
    if holds(after, entries[0].key) {
        let i = choose|i: int| holds_at(after, entries[0].key, i);
        if i < after.len() - 1 {
            assert(after[i] == entries[i + 1]);
        }
    }
    assert forall|i: int| 1 <= i < entries.len() implies entry_of(
        after,
        (#[trigger] entries[i]).key,
    ) == Some(entries[i]) by {
        assert(holds_at(entries, entries[i].key, i));
        lemma_slot_is(entries, entries[i].key, i);
        law_set_keeps_others(entries, key, value, now, capacity, entries[i].key);
    }
}

/// An entry that was just looked up outlives the next store, in any cache of
/// two entries or more.
pub proof fn law_recently_used_survives(
    entries: Seq<EntryView>,
    used: Seq<char>,
    key: Seq<char>,
    value: Seq<char>,
    now: u64,
    capacity: nat,
)
    requires
        distinct_keys(entries),
        entries.len() <= capacity,
        capacity >= 2,
        holds(entries, used),
        used != key,
    ensures
        entry_of(after_set(after_get(entries, used), key, value, now, capacity), used) == entry_of(
            entries,
            used,
        ),
{
    let bumped = after_get(entries, used);
    lemma_after_get_wf(entries, used);
    law_get_changes_no_entry(entries, used, used);
    lemma_get_keeps_keys(entries, used, used);
    lemma_get_keeps_keys(entries, used, key);
    assert(holds_at(entries, used, slot(entries, used)));
    assert(bumped.last().key == used);
    if bumped.len() >= 2 {
        assert(bumped[0].key != bumped[bumped.len() - 1].key);
    }
    law_set_keeps_others(bumped, key, value, now, capacity, used);
}

/// Two stores under one key leave one entry for it, and it holds what was
/// stored last. The second store adds no entry.
pub proof fn law_repeated_set_one_entry(
    entries: Seq<EntryView>,
    key: Seq<char>,
    first: Seq<char>,
    second: Seq<char>,
    at_first: u64,
    at_second: u64,
    capacity: nat,
)
    requires
        distinct_keys(entries),
        entries.len() <= capacity,
        capacity >= 1,
    ensures
        lookup(
            after_set(
                after_set(entries, key, first, at_first, capacity),
                key,
                second,
                at_second,
                capacity,
            ),
            key,
        ) == Some(second),
        forall|i: int, j: int|
            #![trigger holds_at(
                after_set(
                    after_set(entries, key, first, at_first, capacity),
                    key,
                    second,
                    at_second,
                    capacity,
                ),
                key,
                i,
            ), holds_at(
                after_set(
                    after_set(entries, key, first, at_first, capacity),
                    key,
                    second,
                    at_second,
                    capacity,
                ),
                key,
                j,
            )]
            holds_at(
                after_set(
                    after_set(entries, key, first, at_first, capacity),
                    key,
                    second,
                    at_second,
                    capacity,
                ),
                key,
                i,
            ) && holds_at(
                after_set(
                    after_set(entries, key, first, at_first, capacity),
                    key,
                    second,
                    at_second,
                    capacity,
                ),
                key,
                j,
            ) ==> i == j,
        after_set(
            after_set(entries, key, first, at_first, capacity),
            key,
            second,
            at_second,
            capacity,
        ).len() == after_set(entries, key, first, at_first, capacity).len(),
{
    let once = after_set(entries, key, first, at_first, capacity);
    let twice = after_set(once, key, second, at_second, capacity);
    lemma_after_set_wf(entries, key, first, at_first, capacity);
    law_get_after_set(entries, key, first, at_first, capacity);
    law_get_after_set(once, key, second, at_second, capacity);
    lemma_after_set_wf(once, key, second, at_second, capacity);
    assert forall|i: int, j: int| holds_at(twice, key, i) && holds_at(twice, key, j) implies i
        == j by {
        lemma_slot_is(twice, key, i);
        lemma_slot_is(twice, key, j);
    }
}

/// Storing the same text under the same key at the same instant a second
/// time changes nothing.
pub proof fn law_set_idempotent(
    entries: Seq<EntryView>,
    key: Seq<char>,
    value: Seq<char>,
    now: u64,
    capacity: nat,
)
    requires
        distinct_keys(entries),
        entries.len() <= capacity,
    ensures
        after_set(after_set(entries, key, value, now, capacity), key, value, now, capacity)
            == after_set(entries, key, value, now, capacity),
{
    let once = after_set(entries, key, value, now, capacity);
    if capacity >= 1 {
        lemma_after_set_wf(entries, key, value, now, capacity);
        assert(once.last() == EntryView { key, value, inserted_at: now });
        lemma_slot_is(once, key, once.len() - 1);
        assert(after_set(once, key, value, now, capacity) =~= once);
    }
}

} // verus!
