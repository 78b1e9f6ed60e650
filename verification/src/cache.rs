//! A bounded cache with a time to live and single-flight bookkeeping.
//!
//! The cache keeps what was computed for a key, with the time at which it
//! was stored. A stored value is served as it is for as long as it is
//! fresh: until more than the time to live has passed since it was stored.
//! The number of stored values is bounded; when the bound is reached the
//! value that was used longest ago makes room.
//!
//! The cache also keeps the keys for which a computation is under way. The
//! first caller that misses on a key is told to compute; callers that miss
//! on the same key before it has reported back are told to wait, so that
//! one computation serves them all.
//!
//! Time is a number of seconds that the caller reads from a clock of its
//! own and passes in. A clock that steps back does no harm: a value stored
//! "later" than now counts as fresh.
//!
//! The stored values and the marks are kept in lists that each call walks,
//! so a call costs time in proportion to what the cache holds.

use vstd::prelude::*;

verus! {

/// What is stored for a key: the value and the time at which it was stored.
pub struct ReadyView {
    pub key: Seq<char>,
    pub value: Option<Seq<char>>,
    pub created: u64,
}

/// The state of a cache: the stored values, the one used longest ago first;
/// the keys for which a computation is under way; the bound on the number
/// of stored values; and the time to live.
pub struct CacheView {
    pub ready: Seq<ReadyView>,
    pub pending: Set<Seq<char>>,
    pub capacity: nat,
    pub ttl: u64,
}

/// What a caller is told when it asks for a key.
pub enum LookupView {
    /// A fresh value is stored: this is it.
    Hit(Option<Seq<char>>),
    /// A computation for the key is under way: wait for it.
    Wait,
    /// Nothing fresh is stored and nobody computes: compute, then report.
    Compute,
}

/// A value stored at `created` is fresh at `now`: no more than `ttl` has
/// passed since.
pub open spec fn is_fresh(now: u64, created: u64, ttl: u64) -> bool {
    now <= created || now - created <= ttl
}

/// A value is stored for the key.
pub open spec fn has_entry(ready: Seq<ReadyView>, key: Seq<char>) -> bool {
    exists|i: int| 0 <= i < ready.len() && (#[trigger] ready[i]).key == key
}

/// Where the value for the key is stored, if one is.
pub open spec fn entry_index(ready: Seq<ReadyView>, key: Seq<char>) -> int {
    choose|i: int| 0 <= i < ready.len() && (#[trigger] ready[i]).key == key
}

/// No two stored values have the same key.
pub open spec fn distinct_keys(ready: Seq<ReadyView>) -> bool {
    forall|i: int, j: int|
        0 <= i < j < ready.len() ==> (#[trigger] ready[i]).key != (#[trigger] ready[j]).key
}

impl CacheView {
    /// The state is one that a cache can be in: stored keys are distinct,
    /// no key is both stored and under computation, and the bound holds.
    pub open spec fn wf(self) -> bool {
        &&& distinct_keys(self.ready)
        &&& forall|i: int|
            0 <= i < self.ready.len() ==> !self.pending.contains((#[trigger] self.ready[i]).key)
        &&& self.ready.len() <= self.capacity
    }

    /// The value that is served for the key at `now`: the stored one, if it
    /// is fresh.
    pub open spec fn fresh_value(self, key: Seq<char>, now: u64) -> Option<Option<Seq<char>>> {
        if has_entry(self.ready, key) && is_fresh(
            now,
            self.ready[entry_index(self.ready, key)].created,
            self.ttl,
        ) {
            Some(self.ready[entry_index(self.ready, key)].value)
        } else {
            None
        }
    }

    /// The stored values without the one for the key.
    pub open spec fn without(self, key: Seq<char>) -> Seq<ReadyView> {
        if has_entry(self.ready, key) {
            self.ready.remove(entry_index(self.ready, key))
        } else {
            self.ready
        }
    }

    /// The state after a caller asked for the key at `now`. A fresh value
    /// becomes the one used last. A value that is no longer fresh is
    /// dropped; then the key is marked as under computation unless it is
    /// marked so already.
    pub open spec fn after_begin(self, key: Seq<char>, now: u64) -> CacheView {
        if self.fresh_value(key, now) is Some {
            CacheView {
                ready: self.without(key).push(self.ready[entry_index(self.ready, key)]),
                ..self
            }
        } else {
            CacheView { ready: self.without(key), pending: self.pending.insert(key), ..self }
        }
    }

    /// What a caller that asks for the key at `now` is told.
    pub open spec fn lookup(self, key: Seq<char>, now: u64) -> LookupView {
        match self.fresh_value(key, now) {
            Some(value) => LookupView::Hit(value),
            None => if self.pending.contains(key) {
                LookupView::Wait
            } else {
                LookupView::Compute
            },
        }
    }

    /// The stored values once room is made for one more.
    pub open spec fn with_room(self) -> Seq<ReadyView> {
        if self.ready.len() >= self.capacity {
            self.ready.drop_first()
        } else {
            self.ready
        }
    }

    /// The state after the computation for the key reported `value` at
    /// `now`. A report for a key that is not under computation changes
    /// nothing. Otherwise the mark is taken off, and, unless the cache
    /// stores nothing at all, the value is stored as the one used last,
    /// after the one used longest ago has made room if the bound was
    /// reached.
    pub open spec fn after_complete(self, key: Seq<char>, value: Option<Seq<char>>, now: u64)
        -> CacheView {
        if !self.pending.contains(key) {
            self
        } else if self.capacity == 0 {
            CacheView { pending: self.pending.remove(key), ..self }
        } else {
            CacheView {
                ready: self.with_room().push(ReadyView { key, value, created: now }),
                pending: self.pending.remove(key),
                ..self
            }
        }
    }

    /// The state after the computation for the key was given up.
    pub open spec fn after_abandon(self, key: Seq<char>) -> CacheView {
        CacheView { pending: self.pending.remove(key), ..self }
    }
}

/// A stored value.
struct ReadyEntry {
    key: String,
    value: Option<String>,
    created: u64,
}

impl View for ReadyEntry {
    type V = ReadyView;

    closed spec fn view(&self) -> ReadyView {
        ReadyView {
            key: self.key@,
            value: match self.value {
                Some(v) => Some(v@),
                None => None,
            },
            created: self.created,
        }
    }
}

/// What a caller is told when it asks the cache for a key.
#[derive(Debug, PartialEq, Eq)]
pub enum Lookup {
    /// A fresh value is stored: this is it.
    Hit(Option<String>),
    /// A computation for the key is under way: wait for it, then ask again.
    Wait,
    /// Nothing fresh is stored and nobody computes: compute the value, then
    /// report it with [`Cache::complete`] or give up with
    /// [`Cache::abandon`].
    Compute,
}

impl View for Lookup {
    type V = LookupView;

    open spec fn view(&self) -> LookupView {
        match self {
            Lookup::Hit(Some(v)) => LookupView::Hit(Some(v@)),
            Lookup::Hit(None) => LookupView::Hit(None),
            Lookup::Wait => LookupView::Wait,
            Lookup::Compute => LookupView::Compute,
        }
    }
}

/// A bounded cache of optional strings by string keys, with a time to live
/// and single-flight bookkeeping.
pub struct Cache {
    ready: Vec<ReadyEntry>,
    pending: Vec<String>,
    capacity: usize,
    ttl: u64,
}

/// The views of the stored values.
spec fn ready_views(ready: Seq<ReadyEntry>) -> Seq<ReadyView> {
    ready.map_values(|e: ReadyEntry| e@)
}

/// The views of the keys under computation.
spec fn pending_views(pending: Seq<String>) -> Seq<Seq<char>> {
    pending.map_values(|k: String| k@)
}

impl View for Cache {
    type V = CacheView;

    closed spec fn view(&self) -> CacheView {
        CacheView {
            ready: ready_views(self.ready@),
            pending: pending_views(self.pending@).to_set(),
            capacity: self.capacity as nat,
            ttl: self.ttl,
        }
    }
}

/// A copy of an optional string.
fn clone_value(value: &Option<String>) -> (copy: Option<String>)
    ensures
        copy == *value,
{
    match value {
        Some(v) => Some(v.clone()),
        None => None,
    }
}

impl Cache {
    #[verifier::type_invariant]
    spec fn well_formed(self) -> bool {
        self@.wf() && pending_views(self.pending@).no_duplicates()
    }

    /// An empty cache that stores at most `capacity` values, each for
    /// `ttl` seconds.
    pub fn new(capacity: usize, ttl: u64) -> (cache: Cache)
        ensures
            cache@.wf(),
            cache@ == (CacheView {
                ready: Seq::empty(),
                pending: Set::empty(),
                capacity: capacity as nat,
                ttl,
            }),
    {
        let cache = Cache { ready: Vec::new(), pending: Vec::new(), capacity, ttl };
        assert(cache@.ready =~= Seq::empty());
        assert(cache@.pending =~= Set::empty());
        cache
    }

    /// The number of stored values.
    pub fn len(&self) -> (n: usize)
        ensures
            n == self@.ready.len(),
            n <= self@.capacity,
            self@.wf(),
    {
        proof {
            use_type_invariant(self);
        }
        self.ready.len()
    }

    /// The bound on the number of stored values.
    pub fn capacity(&self) -> (n: usize)
        ensures
            n == self@.capacity,
    {
        self.capacity
    }

    /// The time to live, in seconds.
    pub fn ttl(&self) -> (secs: u64)
        ensures
            secs == self@.ttl,
    {
        self.ttl
    }

    /// Takes the two lists out of the cache, which stays empty meanwhile.
    fn take_lists(&mut self) -> (lists: (Vec<ReadyEntry>, Vec<String>))
        ensures
            ready_views(lists.0@) == old(self)@.ready,
            pending_views(lists.1@).to_set() == old(self)@.pending,
            pending_views(lists.1@).no_duplicates(),
            old(self)@.wf(),
            final(self).capacity == old(self).capacity,
            final(self).ttl == old(self).ttl,
            final(self).ready@.len() == 0,
            final(self).pending@.len() == 0,
    {
        proof {
            use_type_invariant(&*self);
        }
        let mut ready: Vec<ReadyEntry> = Vec::new();
        let mut pending: Vec<String> = Vec::new();
        assert(pending_views(pending@).to_set() =~= Set::empty());
        core::mem::swap(&mut self.ready, &mut ready);
        core::mem::swap(&mut self.pending, &mut pending);
        (ready, pending)
    }

    /// Puts the two lists into the cache, which was empty meanwhile.
    fn put_lists(&mut self, ready: Vec<ReadyEntry>, pending: Vec<String>)
        requires
            old(self).ready@.len() == 0,
            old(self).pending@.len() == 0,
            pending_views(pending@).no_duplicates(),
            (CacheView {
                ready: ready_views(ready@),
                pending: pending_views(pending@).to_set(),
                capacity: old(self).capacity as nat,
                ttl: old(self).ttl,
            }).wf(),
        ensures
            final(self)@ == (CacheView {
                ready: ready_views(ready@),
                pending: pending_views(pending@).to_set(),
                capacity: old(self).capacity as nat,
                ttl: old(self).ttl,
            }),
    {
        let mut ready = ready;
        let mut pending = pending;
        assert(pending_views(self.pending@).to_set() =~= Set::empty());
        core::mem::swap(&mut self.ready, &mut ready);
        core::mem::swap(&mut self.pending, &mut pending);
    }

    /// Asks for the key at `now`. A fresh value is handed out as it was
    /// stored, without any look at the store behind the cache. Otherwise
    /// the caller is told to wait, if a computation for the key is under
    /// way, or to compute, and then the key is marked as under computation.
    pub fn begin(&mut self, key: &str, now: u64) -> (told: Lookup)
        ensures
            old(self)@.wf(),
            final(self)@.wf(),
            final(self)@ == old(self)@.after_begin(key@, now),
            told@ == old(self)@.lookup(key@, now),
    {
        let ghost before = self@;
        let wanted = key.to_owned();
        let (mut ready, mut pending) = self.take_lists();
        let ghost capacity = self.capacity as nat;
        let ghost state = |r: Seq<ReadyView>, p: Set<Seq<char>>|
            CacheView { ready: r, pending: p, capacity, ttl: self.ttl };
        assert(before == state(before.ready, before.pending));
        match find_ready(&ready, &wanted) {
            Some(at) => {
                proof {
                    assert(before.ready[at as int].key == key@);
                    lemma_entry_index(before.ready, key@, at as int);
                    lemma_remove_keeps_distinct(before.ready, at as int);
                    lemma_wf_remove(before, at as int);
                }
                let entry = ready.remove(at);
                assert(ready_views(ready@) =~= before.ready.remove(at as int));
                let created = entry.created;
                if now <= created || now - created <= self.ttl {
                    let value = clone_value(&entry.value);
                    let ghost shorter = ready_views(ready@);
                    proof {
                        lemma_wf_push(state(shorter, before.pending), entry@);
                    }
                    ready.push(entry);
                    assert(ready_views(ready@) =~= shorter.push(entry@));
                    self.put_lists(ready, pending);
                    return Lookup::Hit(value);
                }
            },
            None => {},
        }
        assert(ready_views(ready@) == before.without(key@));
        assert(before.fresh_value(key@, now) is None);
        assert(!has_entry(ready_views(ready@), key@));
        assert(state(ready_views(ready@), before.pending).wf());
        match find_pending(&pending, &wanted) {
            Some(_) => {
                assert(before.pending.insert(key@) =~= before.pending);
                self.put_lists(ready, pending);
                Lookup::Wait
            },
            None => {
                let ghost marks = pending_views(pending@);
                let ghost stored = ready_views(ready@);
                proof {
                    marks.lemma_push_to_set_commute(key@);
                    assert forall|i: int| 0 <= i < stored.len() implies !before.pending.insert(
                        key@,
                    ).contains((#[trigger] stored[i]).key) by {
                        assert(stored[i].key != key@);
                    }
                }
                pending.push(wanted);
                assert(pending_views(pending@) =~= marks.push(key@));
                self.put_lists(ready, pending);
                Lookup::Compute
            },
        }
    }

    /// Reports the value computed for the key at `now`. The report of a
    /// caller that was not told to compute is ignored. Otherwise the value
    /// is stored, in place of the value used longest ago if the bound is
    /// reached, and callers that waited find it when they ask again.
    /// Returns whether the value was stored.
    pub fn complete(&mut self, key: &str, value: Option<String>, now: u64) -> (stored: bool)
        ensures
            old(self)@.wf(),
            final(self)@.wf(),
            final(self)@ == old(self)@.after_complete(
                key@,
                match value {
                    Some(v) => Some(v@),
                    None => None,
                },
                now,
            ),
            stored == (old(self)@.pending.contains(key@) && old(self)@.capacity > 0),
    {
        let ghost before = self@;
        let wanted = key.to_owned();
        let (mut ready, mut pending) = self.take_lists();
        let ghost capacity = self.capacity as nat;
        let ghost state = |r: Seq<ReadyView>, p: Set<Seq<char>>|
            CacheView { ready: r, pending: p, capacity, ttl: self.ttl };
        assert(before == state(before.ready, before.pending));
        match find_pending(&pending, &wanted) {
            None => {
                self.put_lists(ready, pending);
                false
            },
            Some(at) => {
                let ghost marks = pending_views(pending@);
                proof {
                    lemma_remove_from_set(marks, at as int);
                }
                pending.remove(at);
                assert(pending_views(pending@) =~= marks.remove(at as int));
                let ghost unmarked = before.pending.remove(key@);
                assert(state(before.ready, unmarked).wf());
                if self.capacity == 0 {
                    self.put_lists(ready, pending);
                    return false;
                }
                if ready.len() >= self.capacity {
                    proof {
                        lemma_remove_keeps_distinct(before.ready, 0);
                        lemma_wf_remove(state(before.ready, unmarked), 0);
                    }
                    ready.remove(0);
                    assert(ready_views(ready@) =~= before.ready.drop_first());
                }
                let ghost roomy = ready_views(ready@);
                assert(roomy == before.with_room());
                let entry = ReadyEntry { key: wanted, value, created: now };
                proof {
                    assert(!has_entry(before.ready, key@)) by {
                        if has_entry(before.ready, key@) {
                            let i = entry_index(before.ready, key@);
                            assert(!before.pending.contains(before.ready[i].key));
                        }
                    }
                    assert(!has_entry(roomy, key@)) by {
                        if has_entry(roomy, key@) {
                            let i = entry_index(roomy, key@);
                            if before.ready.len() >= before.capacity {
                                assert(roomy[i] == before.ready[i + 1]);
                            }
                        }
                    }
                    lemma_wf_push(state(roomy, unmarked), entry@);
                }
                ready.push(entry);
                assert(ready_views(ready@) =~= roomy.push(entry@));
                self.put_lists(ready, pending);
                true
            },
        }
    }

    /// Gives up the computation for the key: the next caller that misses on
    /// it is told to compute.
    pub fn abandon(&mut self, key: &str)
        ensures
            old(self)@.wf(),
            final(self)@.wf(),
            final(self)@ == old(self)@.after_abandon(key@),
    {
        let ghost before = self@;
        let wanted = key.to_owned();
        let (ready, mut pending) = self.take_lists();
        match find_pending(&pending, &wanted) {
            None => {
                assert(before.pending.remove(key@) =~= before.pending);
            },
            Some(at) => {
                let ghost marks = pending_views(pending@);
                proof {
                    lemma_remove_from_set(marks, at as int);
                }
                pending.remove(at);
                assert(pending_views(pending@) =~= marks.remove(at as int));
            },
        }
        self.put_lists(ready, pending);
    }
}

/// Where the value for the key is stored.
fn find_ready(ready: &Vec<ReadyEntry>, key: &String) -> (at: Option<usize>)
    ensures
        match at {
            Some(i) => i < ready.len() && ready_views(ready@)[i as int].key == key@,
            None => !has_entry(ready_views(ready@), key@),
        },
{
    let mut i: usize = 0;
    while i < ready.len()
        invariant
            i <= ready.len(),
            forall|j: int| 0 <= j < i ==> (#[trigger] ready_views(ready@)[j]).key != key@,
        decreases ready.len() - i,
    {
        assert(ready_views(ready@)[i as int].key == ready[i as int].key@);
        if ready[i].key == *key {
            return Some(i);
        }
        i += 1;
    }
    None
}

/// Where the key is marked as under computation.
fn find_pending(pending: &Vec<String>, key: &String) -> (at: Option<usize>)
    ensures
        match at {
            Some(i) => i < pending.len() && pending_views(pending@)[i as int] == key@,
            None => !pending_views(pending@).to_set().contains(key@),
        },
{
    let mut i: usize = 0;
    while i < pending.len()
        invariant
            i <= pending.len(),
            forall|j: int| 0 <= j < i ==> #[trigger] pending_views(pending@)[j] != key@,
        decreases pending.len() - i,
    {
        assert(pending_views(pending@)[i as int] == pending[i as int]@);
        if pending[i] == *key {
            return Some(i);
        }
        i += 1;
    }
    None
}

/// The value stored for a key, if one is.
pub open spec fn entry_of(ready: Seq<ReadyView>, key: Seq<char>) -> Option<ReadyView> {
    if has_entry(ready, key) {
        Some(ready[entry_index(ready, key)])
    } else {
        None
    }
}

/// Taking the value of one key out leaves what is stored for every other.
pub proof fn lemma_entry_after_remove(ready: Seq<ReadyView>, at: int, key: Seq<char>)
    requires
        distinct_keys(ready),
        0 <= at < ready.len(),
        key != ready[at].key,
    ensures
        entry_of(ready.remove(at), key) == entry_of(ready, key),
{
    lemma_remove_keeps_distinct(ready, at);
    let rest = ready.remove(at);
    if has_entry(ready, key) {
        let a = entry_index(ready, key);
        let i = if a < at { a } else { a - 1 };
        assert(rest[i] == ready[a]);
        lemma_entry_index(rest, key, i);
    }
}

/// Storing a value for a key that had none leaves what is stored for every
/// other key, and makes the value the one stored for that key.
pub proof fn lemma_entry_after_push(ready: Seq<ReadyView>, entry: ReadyView, key: Seq<char>)
    requires
        distinct_keys(ready),
        !has_entry(ready, entry.key),
    ensures
        distinct_keys(ready.push(entry)),
        entry_of(ready.push(entry), key) == if key == entry.key {
            Some(entry)
        } else {
            entry_of(ready, key)
        },
{
    let more = ready.push(entry);
    assert forall|i: int, j: int| 0 <= i < j < more.len() implies (#[trigger] more[i]).key != (
    #[trigger] more[j]).key by {
        if j == ready.len() {
            assert(more[i] == ready[i]);
        } else {
            assert(more[i] == ready[i] && more[j] == ready[j]);
        }
    }
    if key == entry.key {
        assert(more[ready.len() as int] == entry);
        lemma_entry_index(more, key, ready.len() as int);
    } else if has_entry(ready, key) {
        let a = entry_index(ready, key);
        assert(more[a] == ready[a]);
        lemma_entry_index(more, key, a);
    } else if has_entry(more, key) {
        let i = entry_index(more, key);
        assert(more[i] == ready[i]);
    }
}

/// Every operation leaves a state that a cache can be in.
pub proof fn law_operations_keep_well_formed(
    state: CacheView,
    key: Seq<char>,
    value: Option<Seq<char>>,
    now: u64,
)
    requires
        state.wf(),
    ensures
        state.after_begin(key, now).wf(),
        state.after_complete(key, value, now).wf(),
        state.after_abandon(key).wf(),
{
    if has_entry(state.ready, key) {
        let at = entry_index(state.ready, key);
        lemma_remove_keeps_distinct(state.ready, at);
        lemma_wf_remove(state, at);
        let shorter = CacheView { ready: state.ready.remove(at), ..state };
        if state.fresh_value(key, now) is Some {
            lemma_wf_push(shorter, state.ready[at]);
        } else {
            assert forall|i: int| 0 <= i < shorter.ready.len() implies !state.pending.insert(
                key,
            ).contains((#[trigger] shorter.ready[i]).key) by {
                assert(shorter.ready[i].key != key);
            }
        }
    } else {
        assert forall|i: int| 0 <= i < state.ready.len() implies !state.pending.insert(
            key,
        ).contains((#[trigger] state.ready[i]).key) by {
            assert(state.ready[i].key != key);
        }
    }
    if state.pending.contains(key) && state.capacity > 0 {
        let unmarked = CacheView { pending: state.pending.remove(key), ..state };
        lemma_with_room(state, key);
        lemma_wf_push(
            CacheView { ready: state.with_room(), ..unmarked },
            ReadyView { key, value, created: now },
        );
    }
}

/// Once room is made in a state where the key is under computation, the
/// stored keys are distinct, the key is not among them, there is room for
/// one more, and what is stored for a key is what was stored before, or
/// nothing if it was the value used longest ago and had to make room.
proof fn lemma_with_room(state: CacheView, key: Seq<char>)
    requires
        state.wf(),
        state.pending.contains(key),
        state.capacity > 0,
    ensures
        (CacheView { ready: state.with_room(), pending: state.pending.remove(key), ..state }).wf(),
        !has_entry(state.with_room(), key),
        state.with_room().len() < state.capacity,
        forall|k: Seq<char>| #[trigger]
            entry_of(state.with_room(), k) == if state.ready.len() >= state.capacity
                && state.ready[0].key == k {
                None
            } else {
                entry_of(state.ready, k)
            },
{
    assert(!has_entry(state.ready, key)) by {
        if has_entry(state.ready, key) {
            let i = entry_index(state.ready, key);
            assert(!state.pending.contains(state.ready[i].key));
        }
    }
    if state.ready.len() >= state.capacity {
        assert(state.ready.drop_first() =~= state.ready.remove(0));
        lemma_remove_keeps_distinct(state.ready, 0);
        lemma_wf_remove(CacheView { pending: state.pending.remove(key), ..state }, 0);
        assert forall|k: Seq<char>| #[trigger]
            entry_of(state.with_room(), k) == if state.ready[0].key == k {
                None
            } else {
                entry_of(state.ready, k)
            } by {
            if state.ready[0].key != k {
                lemma_entry_after_remove(state.ready, 0, k);
            }
        }
    }
}

/// The value reported for a key is what every caller gets that asks for
/// the key while the value is fresh; and asking does not change what the
/// next caller gets. So of two requests for a key within the time to live
/// at most the first leads to a computation.
pub proof fn law_second_request_hits(
    state: CacheView,
    key: Seq<char>,
    value: Option<Seq<char>>,
    stored_at: u64,
    second: u64,
    third: u64,
)
    requires
        state.wf(),
        state.capacity > 0,
        state.pending.contains(key),
        is_fresh(second, stored_at, state.ttl),
        is_fresh(third, stored_at, state.ttl),
    ensures
        state.after_complete(key, value, stored_at).lookup(key, second) == LookupView::Hit(value),
        state.after_complete(key, value, stored_at).after_begin(key, second).lookup(key, third)
            == LookupView::Hit(value),
{
    let entry = ReadyView { key, value, created: stored_at };
    let stored = state.after_complete(key, value, stored_at);
    lemma_with_room(state, key);
    lemma_entry_after_push(state.with_room(), entry, key);
    law_operations_keep_well_formed(state, key, value, stored_at);
    assert(entry_of(stored.ready, key) == Some(entry));
    assert(stored.fresh_value(key, second) == Some(value));
    lemma_hit_keeps_entries(stored, key, second, key);
}

/// Handing out a fresh value leaves what is stored for every key.
proof fn lemma_hit_keeps_entries(state: CacheView, key: Seq<char>, now: u64, other: Seq<char>)
    requires
        state.wf(),
        state.fresh_value(key, now) is Some,
    ensures
        entry_of(state.after_begin(key, now).ready, other) == entry_of(state.ready, other),
        state.after_begin(key, now).pending == state.pending,
{
    let at = entry_index(state.ready, key);
    lemma_remove_keeps_distinct(state.ready, at);
    lemma_entry_after_push(state.ready.remove(at), state.ready[at], other);
    if other != key {
        lemma_entry_after_remove(state.ready, at, other);
    }
}

/// What is served for a key does not change while it is fresh. Whatever is
/// asked, reported or given up, for this key or another, the cache then
/// serves the same value for the key, or none: none only if the request
/// came when the value was no longer fresh, or if the value had been used
/// longest ago and made room for a new one. A value is never replaced by
/// another while it is served.
pub proof fn law_fresh_value_is_stable(
    state: CacheView,
    key: Seq<char>,
    now: u64,
    other: Seq<char>,
    value: Option<Seq<char>>,
    at: u64,
)
    requires
        state.wf(),
        state.fresh_value(key, now) is Some,
    ensures
        state.after_begin(other, at).fresh_value(key, now) == if other == key && !is_fresh(
            at,
            entry_of(state.ready, key)->0.created,
            state.ttl,
        ) {
            None
        } else {
            state.fresh_value(key, now)
        },
        state.after_complete(other, value, at).fresh_value(key, now) == if state.pending.contains(
            other,
        ) && state.ready.len() >= state.capacity && state.ready[0].key == key {
            None
        } else {
            state.fresh_value(key, now)
        },
        state.after_abandon(other).fresh_value(key, now) == state.fresh_value(key, now),
        state.after_complete(key, value, at) == state,
{
    let held = entry_index(state.ready, key);
    assert(!state.pending.contains(state.ready[held].key));
    // asking
    if state.fresh_value(other, at) is Some {
        lemma_hit_keeps_entries(state, other, at, key);
    } else if has_entry(state.ready, other) {
        let gone = entry_index(state.ready, other);
        lemma_remove_keeps_distinct(state.ready, gone);
        if other != key {
            lemma_entry_after_remove(state.ready, gone, key);
        }
    }
    // reporting
    if state.pending.contains(other) && state.capacity > 0 {
        lemma_with_room(state, other);
        lemma_entry_after_push(
            state.with_room(),
            ReadyView { key: other, value, created: at },
            key,
        );
        assert(entry_of(state.with_room(), key) == if state.ready.len() >= state.capacity
            && state.ready[0].key == key {
            None
        } else {
            entry_of(state.ready, key)
        });
    }
}

/// While a computation for a key is under way, nobody else is told to
/// compute for it: a caller that asks for the key is told to wait, and its
/// asking changes nothing. Asking for other keys does not take the mark
/// off. So between the answer to compute and the report, or the giving up,
/// there is one computation for the key.
pub proof fn law_single_flight(state: CacheView, key: Seq<char>, now: u64, other: Seq<char>)
    requires
        state.wf(),
        state.pending.contains(key),
    ensures
        state.lookup(key, now) == LookupView::Wait,
        state.after_begin(key, now) == state,
        state.after_begin(other, now).pending.contains(key),
        state.after_begin(other, now).lookup(key, now) == LookupView::Wait,
{
    assert(!has_entry(state.ready, key)) by {
        if has_entry(state.ready, key) {
            let i = entry_index(state.ready, key);
            assert(!state.pending.contains(state.ready[i].key));
        }
    }
    assert(state.pending.insert(key) =~= state.pending);
    law_operations_keep_well_formed(state, other, None, now);
    let next = state.after_begin(other, now);
    assert(!has_entry(next.ready, key)) by {
        if has_entry(next.ready, key) {
            let i = entry_index(next.ready, key);
            assert(!next.pending.contains(next.ready[i].key));
        }
    }
}

/// A caller that is told to compute leaves the key marked: every caller
/// after it is told to wait, until the value is reported or given up.
pub proof fn law_compute_marks_key(state: CacheView, key: Seq<char>, now: u64, later: u64)
    requires
        state.wf(),
        state.lookup(key, now) == LookupView::Compute,
    ensures
        state.after_begin(key, now).pending.contains(key),
        state.after_begin(key, now).lookup(key, later) == LookupView::Wait,
{
    law_operations_keep_well_formed(state, key, None, now);
    law_single_flight(state.after_begin(key, now), key, later, key);
}

/// Taking one of a list of distinct keys out takes it out of their set,
/// and leaves the others distinct.
proof fn lemma_remove_from_set(marks: Seq<Seq<char>>, at: int)
    requires
        marks.no_duplicates(),
        0 <= at < marks.len(),
    ensures
        marks.remove(at).no_duplicates(),
        marks.remove(at).to_set() == marks.to_set().remove(marks[at]),
{
    let rest = marks.remove(at);
    assert forall|k: Seq<char>| rest.to_set().contains(k) == marks.to_set().remove(
        marks[at],
    ).contains(k) by {
        if rest.to_set().contains(k) {
            let i = choose|i: int| 0 <= i < rest.len() && rest[i] == k;
            let a = if i < at { i } else { i + 1 };
            assert(rest[i] == marks[a]);
            assert(marks.contains(k));
        }
        if marks.to_set().remove(marks[at]).contains(k) {
            let a = choose|a: int| 0 <= a < marks.len() && marks[a] == k;
            let i = if a < at { a } else { a - 1 };
            assert(rest[i] == marks[a]);
            assert(rest.contains(k));
        }
    }
    assert(rest.to_set() =~= marks.to_set().remove(marks[at]));
}

/// Taking a stored value out leaves a state that a cache can be in.
proof fn lemma_wf_remove(state: CacheView, at: int)
    requires
        state.wf(),
        0 <= at < state.ready.len(),
    ensures
        (CacheView { ready: state.ready.remove(at), ..state }).wf(),
{
    lemma_remove_keeps_distinct(state.ready, at);
    let rest = state.ready.remove(at);
    assert forall|i: int| 0 <= i < rest.len() implies !state.pending.contains(
        (#[trigger] rest[i]).key,
    ) by {
        let a = if i < at { i } else { i + 1 };
        assert(rest[i] == state.ready[a]);
    }
}

/// Storing a value for a key that is neither stored nor under computation,
/// where there is room, leaves a state that a cache can be in.
proof fn lemma_wf_push(state: CacheView, entry: ReadyView)
    requires
        state.wf(),
        !has_entry(state.ready, entry.key),
        !state.pending.contains(entry.key),
        state.ready.len() < state.capacity,
    ensures
        (CacheView { ready: state.ready.push(entry), ..state }).wf(),
{
    let more = state.ready.push(entry);
    assert forall|i: int, j: int| 0 <= i < j < more.len() implies (#[trigger] more[i]).key != (
    #[trigger] more[j]).key by {
        if j == state.ready.len() {
            assert(more[i] == state.ready[i]);
        } else {
            assert(more[i] == state.ready[i] && more[j] == state.ready[j]);
        }
    }
    assert forall|i: int| 0 <= i < more.len() implies !state.pending.contains(
        (#[trigger] more[i]).key,
    ) by {
        if i < state.ready.len() {
            assert(more[i] == state.ready[i]);
        }
    }
}

/// In a state with distinct keys, the value for a key is stored where a
/// value with that key is found.
pub proof fn lemma_entry_index(ready: Seq<ReadyView>, key: Seq<char>, at: int)
    requires
        distinct_keys(ready),
        0 <= at < ready.len(),
        ready[at].key == key,
    ensures
        has_entry(ready, key),
        entry_index(ready, key) == at,
{
    let i = entry_index(ready, key);
    assert(0 <= i < ready.len() && ready[i].key == key);
    if i < at {
        assert(ready[i].key != ready[at].key);
    } else if at < i {
        assert(ready[at].key != ready[i].key);
    }
}

/// Taking a value out keeps the keys distinct, and the key that was taken
/// out is stored no more.
pub proof fn lemma_remove_keeps_distinct(ready: Seq<ReadyView>, at: int)
    requires
        distinct_keys(ready),
        0 <= at < ready.len(),
    ensures
        distinct_keys(ready.remove(at)),
        !has_entry(ready.remove(at), ready[at].key),
        forall|key: Seq<char>|
            key != ready[at].key ==> has_entry(ready.remove(at), key) == has_entry(ready, key),
{
    let rest = ready.remove(at);
    assert forall|i: int, j: int| 0 <= i < j < rest.len() implies (#[trigger] rest[i]).key != (
    #[trigger] rest[j]).key by {
        let a = if i < at { i } else { i + 1 };
        let b = if j < at { j } else { j + 1 };
        assert(rest[i] == ready[a] && rest[j] == ready[b]);
    }
    assert forall|i: int| 0 <= i < rest.len() implies (#[trigger] rest[i]).key != ready[at].key by {
        let a = if i < at { i } else { i + 1 };
        assert(rest[i] == ready[a]);
        if a < at {
            assert(ready[a].key != ready[at].key);
        } else {
            assert(ready[at].key != ready[a].key);
        }
    }
    assert forall|key: Seq<char>| key != ready[at].key implies has_entry(rest, key) == has_entry(
        ready,
        key,
    ) by {
        if has_entry(rest, key) {
            let i = entry_index(rest, key);
            let a = if i < at { i } else { i + 1 };
            assert(rest[i] == ready[a]);
        }
        if has_entry(ready, key) {
            let a = entry_index(ready, key);
            let i = if a < at { a } else { a - 1 };
            assert(rest[i] == ready[a]);
        }
    }
}

} // verus!
