//! An open-addressed hash table with linear probing and tombstones, keyed by
//! references to interned strings.

use vstd::prelude::*;
use crate::obj::{bytes_equal, text_at, ObjList};
use crate::value::Value;

verus! {

/// The smallest number of slots a table that holds anything has.
pub const MIN_CAPACITY: usize = 8;

/// A reference to an interned string: where the string lies in the heap, and
/// the hash of its bytes. Two keys are the same key when both parts agree.
#[derive(Clone, Copy, Debug, PartialEq, Eq, Structural)]
pub struct Key {
    pub index: usize,
    pub hash: u32,
}

/// One slot of the table. A tombstone marks a slot whose entry was deleted, so
/// that probe sequences that ran through it stay intact.
#[derive(Clone, Copy, Debug, PartialEq, Eq, Structural)]
pub enum Entry {
    Empty,
    Tombstone,
    Live(Key, Value),
}

/// The number of slots that are not empty.
pub open spec fn filled(s: Seq<Entry>) -> nat
    decreases s.len(),
{
    if s.len() == 0 {
        0
    } else {
        filled(s.drop_last()) + (if s.last() is Empty { 0nat } else { 1nat })
    }
}

/// The number of live slots.
pub open spec fn occupied(s: Seq<Entry>) -> nat
    decreases s.len(),
{
    if s.len() == 0 {
        0
    } else {
        occupied(s.drop_last()) + (if s.last() is Live { 1nat } else { 0nat })
    }
}

/// Where the probe sequence of a key starts.
pub open spec fn home(key: Key, cap: int) -> int {
    (key.hash as int) % cap
}

/// The slot that a probe sequence reaches after `step` steps.
pub open spec fn probe(start: int, step: int, cap: int) -> int {
    if start + step < cap {
        start + step
    } else {
        start + step - cap
    }
}

/// The number of steps from `start` to `at` along a probe sequence.
pub open spec fn distance(start: int, at: int, cap: int) -> int {
    if at >= start {
        at - start
    } else {
        at + cap - start
    }
}

/// Whether some live slot holds the key.
pub open spec fn holds(s: Seq<Entry>, k: Key) -> bool {
    exists|i: int| 0 <= i < s.len() && (#[trigger] s[i]) is Live && s[i]->Live_0 == k
}

/// A live slot that holds the key.
pub open spec fn slot_of(s: Seq<Entry>, k: Key) -> int {
    choose|i: int| 0 <= i < s.len() && (#[trigger] s[i]) is Live && s[i]->Live_0 == k
}

/// The map that the slots stand for.
pub open spec fn contents(s: Seq<Entry>) -> Map<Key, Value> {
    Map::new(|k: Key| holds(s, k), |k: Key| s[slot_of(s, k)]->Live_1)
}

/// No key lives in two slots.
pub open spec fn distinct(s: Seq<Entry>) -> bool {
    forall|i: int, j: int|
        0 <= i < s.len() && 0 <= j < s.len() && (#[trigger] s[i]) is Live && (#[trigger] s[j]) is Live
            && s[i]->Live_0 == s[j]->Live_0 ==> i == j
}

/// The first `upto` slots of the probe sequence from `start` are not empty.
pub open spec fn path_clear(s: Seq<Entry>, start: int, upto: int) -> bool {
    forall|d: int| 0 <= d < upto ==> !((#[trigger] s[probe(start, d, s.len() as int)]) is Empty)
}

/// Every live key is found by probing from its home before an empty slot.
pub open spec fn reachable(s: Seq<Entry>) -> bool {
    forall|i: int|
        0 <= i < s.len() && (#[trigger] s[i]) is Live ==> path_clear(
            s,
            home(s[i]->Live_0, s.len() as int),
            distance(home(s[i]->Live_0, s.len() as int), i, s.len() as int),
        )
}

/// Whether `n` is a power of two.
pub open spec fn power_of_two(n: nat) -> bool
    decreases n,
{
    n == 1 || (n > 1 && n % 2 == 0 && power_of_two(n / 2))
}

/// Whether a table is to grow before it takes one more entry: one more filled
/// slot would take it over three quarters.
pub open spec fn grows(size: nat, graves: nat, capacity: nat) -> bool {
    (size + graves + 1) * 4 > capacity * 3
}

/// The number of slots that a table has after it has grown: twice as many,
/// and at least eight.
pub open spec fn doubled(capacity: nat) -> nat {
    if capacity < 8 {
        8
    } else {
        capacity * 2
    }
}

/// One change of a table: a value stored under a key, or a key deleted.
pub enum Change {
    Store(Key, Value),
    Erase(Key),
}

/// The value that a lookup of `k` gives.
pub open spec fn found(m: Map<Key, Value>, k: Key) -> Option<Value> {
    if m.contains_key(k) {
        Some(m[k])
    } else {
        None
    }
}

/// The map after a change.
pub open spec fn changed(m: Map<Key, Value>, c: Change) -> Map<Key, Value> {
    match c {
        Change::Store(k, v) => m.insert(k, v),
        Change::Erase(k) => m.remove(k),
    }
}

/// What the change returns: for `set`, whether the key is new; for `delete`,
/// whether the key was there.
pub open spec fn answered(m: Map<Key, Value>, c: Change) -> bool {
    match c {
        Change::Store(k, _) => !m.contains_key(k),
        Change::Erase(k) => m.contains_key(k),
    }
}

/// The map after a run of changes.
pub open spec fn replayed(m: Map<Key, Value>, changes: Seq<Change>) -> Map<Key, Value>
    decreases changes.len(),
{
    if changes.len() == 0 {
        m
    } else {
        changed(replayed(m, changes.drop_last()), changes.last())
    }
}

/// Whether a change leaves the key alone.
pub open spec fn spares(c: Change, k: Key) -> bool {
    match c {
        Change::Store(other, _) => other != k,
        Change::Erase(other) => other != k,
    }
}

/// What was stored under a key and neither overwritten nor deleted since is
/// what a lookup gives.
pub proof fn round_trip(m: Map<Key, Value>, k: Key, v: Value, later: Seq<Change>)
    requires
        forall|i: int| 0 <= i < later.len() ==> spares(#[trigger] later[i], k),
    ensures
        found(replayed(changed(m, Change::Store(k, v)), later), k) == Some(v),
    decreases later.len(),
{
    if later.len() > 0 {
        assert forall|i: int| 0 <= i < later.drop_last().len() implies spares(
            #[trigger] later.drop_last()[i],
            k,
        ) by {
            assert(later.drop_last()[i] == later[i]);
        }
        round_trip(m, k, v, later.drop_last());
        assert(spares(later[later.len() - 1], k));
    }
}

/// Once a key is stored, storing under it again creates no entry, for as
/// long as the key is not deleted.
pub proof fn created_once(m: Map<Key, Value>, k: Key, v: Value, later: Seq<Change>, again: Value)
    requires
        forall|i: int| 0 <= i < later.len() ==> #[trigger] later[i] != Change::Erase(k),
    ensures
        !answered(replayed(changed(m, Change::Store(k, v)), later), Change::Store(k, again)),
    decreases later.len(),
{
    if later.len() > 0 {
        assert forall|i: int| 0 <= i < later.drop_last().len() implies #[trigger] later.drop_last()[i]
            != Change::Erase(k) by {
            assert(later.drop_last()[i] == later[i]);
        }
        created_once(m, k, v, later.drop_last(), again);
        assert(later[later.len() - 1] != Change::Erase(k));
    }
}

/// After a key is deleted, a lookup finds nothing and storing under it
/// creates an entry, for as long as nothing else is stored under it.
pub proof fn created_again(m: Map<Key, Value>, k: Key, later: Seq<Change>, v: Value)
    requires
        forall|i: int| 0 <= i < later.len() ==> spares(#[trigger] later[i], k),
    ensures
        found(replayed(changed(m, Change::Erase(k)), later), k) is None,
        answered(replayed(changed(m, Change::Erase(k)), later), Change::Store(k, v)),
    decreases later.len(),
{
    if later.len() > 0 {
        assert forall|i: int| 0 <= i < later.drop_last().len() implies spares(
            #[trigger] later.drop_last()[i],
            k,
        ) by {
            assert(later.drop_last()[i] == later[i]);
        }
        created_again(m, k, later.drop_last(), v);
        assert(spares(later[later.len() - 1], k));
    }
}

/// There are no more live slots than filled ones, and no more filled ones than slots.
proof fn lemma_counts_bounded(s: Seq<Entry>)
    ensures
        occupied(s) <= filled(s) <= s.len(),
    decreases s.len(),
{
    if s.len() > 0 {
        lemma_counts_bounded(s.drop_last());
    }
}

/// Writing one slot changes the counts by that slot alone.
proof fn lemma_counts_update(s: Seq<Entry>, i: int, e: Entry)
    requires
        0 <= i < s.len(),
    ensures
        filled(s.update(i, e)) + (if s[i] is Empty { 0nat } else { 1nat }) == filled(s) + (if e is Empty { 0nat } else { 1nat }),
        occupied(s.update(i, e)) + (if s[i] is Live { 1nat } else { 0nat }) == occupied(s) + (if e is Live { 1nat } else { 0nat }),
    decreases s.len(),
{
    let t = s.update(i, e);
    if i == s.len() - 1 {
        assert(t.drop_last() =~= s.drop_last());
    } else {
        assert(t.drop_last() =~= s.drop_last().update(i, e));
        lemma_counts_update(s.drop_last(), i, e);
    }
}

/// Where not every slot is filled, one is empty.
proof fn lemma_has_empty(s: Seq<Entry>) -> (i: int)
    requires
        filled(s) < s.len(),
    ensures
        0 <= i < s.len(),
        s[i] is Empty,
    decreases s.len(),
{
    if s.last() is Empty {
        s.len() - 1
    } else {
        lemma_has_empty(s.drop_last())
    }
}

/// One more slot adds to the counts what it holds.
proof fn lemma_counts_push(s: Seq<Entry>, e: Entry)
    ensures
        filled(s.push(e)) == filled(s) + (if e is Empty { 0nat } else { 1nat }),
        occupied(s.push(e)) == occupied(s) + (if e is Live { 1nat } else { 0nat }),
{
    assert(s.push(e).drop_last() =~= s);
}

/// Where no key lives twice, a live slot is the slot of its key.
proof fn lemma_slot_unique(s: Seq<Entry>, i: int)
    requires
        distinct(s),
        0 <= i < s.len(),
        s[i] is Live,
    ensures
        holds(s, s[i]->Live_0),
        slot_of(s, s[i]->Live_0) == i,
        contents(s).contains_key(s[i]->Live_0),
        contents(s)[s[i]->Live_0] == s[i]->Live_1,
{
}

/// Storing into the slot that a search for the key ends at inserts into the map.
proof fn lemma_contents_store(s: Seq<Entry>, r: int, key: Key, value: Value)
    requires
        distinct(s),
        0 <= r < s.len(),
        s[r] is Live ==> s[r]->Live_0 == key,
        !(s[r] is Live) ==> !holds(s, key),
    ensures
        distinct(s.update(r, Entry::Live(key, value))),
        contents(s.update(r, Entry::Live(key, value))) == contents(s).insert(key, value),
{
    let t = s.update(r, Entry::Live(key, value));
    assert(distinct(t)) by {
        assert forall|i: int, j: int|
            0 <= i < t.len() && 0 <= j < t.len() && (#[trigger] t[i]) is Live && (#[trigger] t[j]) is Live
                && t[i]->Live_0 == t[j]->Live_0 implies i == j by {
            if i != r && j != r {
                assert(s[i] is Live && s[j] is Live);
            } else if i == r && j != r {
                assert(s[j] is Live && s[j]->Live_0 == key);
                if s[r] is Live {
                    assert(s[r]->Live_0 == s[j]->Live_0);
                }
            } else if j == r && i != r {
                assert(s[i] is Live && s[i]->Live_0 == key);
                if s[r] is Live {
                    assert(s[r]->Live_0 == s[i]->Live_0);
                }
            }
        }
    }
    assert forall|k: Key| holds(t, k) <==> (k == key || holds(s, k)) by {
        if holds(t, k) {
            let i = slot_of(t, k);
            if i != r {
                assert(s[i] is Live && s[i]->Live_0 == k);
            }
        }
        if k == key {
            assert(t[r] is Live && t[r]->Live_0 == k);
        } else if holds(s, k) {
            let i = slot_of(s, k);
            assert(i != r);
            assert(t[i] is Live && t[i]->Live_0 == k);
        }
    }
    assert forall|k: Key| holds(t, k) implies #[trigger] contents(t)[k] == contents(s).insert(key, value)[k] by {
        let i = slot_of(t, k);
        lemma_slot_unique(t, i);
        if k != key {
            assert(i != r);
            assert(s[i] is Live && s[i]->Live_0 == k);
            lemma_slot_unique(s, i);
        } else {
            lemma_slot_unique(t, r);
        }
    }
    assert(contents(t) =~= contents(s).insert(key, value));
}

/// Turning a live slot into a tombstone removes its key from the map.
proof fn lemma_contents_erase(s: Seq<Entry>, r: int)
    requires
        distinct(s),
        0 <= r < s.len(),
        s[r] is Live,
    ensures
        distinct(s.update(r, Entry::Tombstone)),
        contents(s.update(r, Entry::Tombstone)) == contents(s).remove(s[r]->Live_0),
{
    let t = s.update(r, Entry::Tombstone);
    let key = s[r]->Live_0;
    assert(distinct(t)) by {
        assert forall|i: int, j: int|
            0 <= i < t.len() && 0 <= j < t.len() && (#[trigger] t[i]) is Live && (#[trigger] t[j]) is Live
                && t[i]->Live_0 == t[j]->Live_0 implies i == j by {
            assert(s[i] is Live && s[j] is Live);
        }
    }
    assert forall|k: Key| holds(t, k) <==> (k != key && holds(s, k)) by {
        if holds(t, k) {
            let i = slot_of(t, k);
            assert(i != r);
            assert(s[i] is Live && s[i]->Live_0 == k);
            if k == key {
                assert(s[r]->Live_0 == s[i]->Live_0);
            }
        }
        if k != key && holds(s, k) {
            let i = slot_of(s, k);
            assert(i != r);
            assert(t[i] is Live && t[i]->Live_0 == k);
        }
    }
    assert forall|k: Key| holds(t, k) implies #[trigger] contents(t)[k] == contents(s).remove(key)[k] by {
        let i = slot_of(t, k);
        lemma_slot_unique(t, i);
        assert(s[i] is Live && s[i]->Live_0 == k);
        lemma_slot_unique(s, i);
    }
    assert(contents(t) =~= contents(s).remove(key));
}

/// Filling a slot that its key reaches keeps every key reachable.
proof fn lemma_reachable_store(s: Seq<Entry>, r: int, e: Entry)
    requires
        reachable(s),
        0 <= r < s.len(),
        !(e is Empty),
        e is Live ==> path_clear(
            s,
            home(e->Live_0, s.len() as int),
            distance(home(e->Live_0, s.len() as int), r, s.len() as int),
        ),
    ensures
        reachable(s.update(r, e)),
{
    let t = s.update(r, e);
    let n = s.len() as int;
    assert forall|i: int| 0 <= i < t.len() && (#[trigger] t[i]) is Live implies path_clear(
        t,
        home(t[i]->Live_0, n),
        distance(home(t[i]->Live_0, n), i, n),
    ) by {
        let start = home(t[i]->Live_0, n);
        let upto = distance(start, i, n);
        if i != r {
            assert(s[i] is Live);
        }
        assert(path_clear(s, start, upto));
        assert forall|d: int| 0 <= d < upto implies !((#[trigger] t[probe(start, d, n)]) is Empty) by {
            assert(!(s[probe(start, d, n)] is Empty));
        }
    }
}

/// The slot at which a search for `key` ends: the live slot that holds it, or
/// else the first slot of its probe sequence that is not live.
fn find_slot(entries: &Vec<Entry>, key: Key) -> (r: usize)
    requires
        entries@.len() > 0,
        filled(entries@) < entries@.len(),
        distinct(entries@),
        reachable(entries@),
    ensures
        r < entries@.len(),
        holds(entries@, key) <==> entries@[r as int] is Live,
        entries@[r as int] is Live ==> entries@[r as int]->Live_0 == key,
        !(entries@[r as int] is Live) ==> forall|d: int|
            0 <= d < distance(home(key, entries@.len() as int), r as int, entries@.len() as int) ==> (
            #[trigger] entries@[probe(home(key, entries@.len() as int), d, entries@.len() as int)]) is Live,
        path_clear(
            entries@,
            home(key, entries@.len() as int),
            distance(home(key, entries@.len() as int), r as int, entries@.len() as int),
        ),
{
    let cap: usize = entries.len();
    let first: usize = (key.hash as usize) % cap;
    let mut index: usize = first;
    let mut tombstone: Option<usize> = None;
    let ghost s = entries@;
    let ghost n = cap as int;
    let ghost start = first as int;
    let ghost hole = lemma_has_empty(s);
    let ghost mut d: int = 0;
    loop
        invariant
            s == entries@,
            n == cap as int,
            n == s.len(),
            n > 0,
            0 <= start < n,
            start == home(key, n),
            distinct(s),
            reachable(s),
            0 <= hole < n,
            s[hole] is Empty,
            0 <= d <= distance(start, hole, n),
            index as int == probe(start, d, n),
            0 <= index < cap,
            forall|e: int| 0 <= e < d ==> !((#[trigger] s[probe(start, e, n)]) is Empty),
            forall|e: int|
                0 <= e < d && (#[trigger] s[probe(start, e, n)]) is Live ==> s[probe(start, e, n)]->Live_0
                    != key,
            tombstone is None ==> forall|e: int| 0 <= e < d ==> (#[trigger] s[probe(start, e, n)]) is Live,
            tombstone is Some ==> {
                let t = tombstone->Some_0 as int;
                &&& 0 <= t < n
                &&& s[t] is Tombstone
                &&& 0 <= distance(start, t, n) < d
                &&& forall|e: int| 0 <= e < distance(start, t, n) ==> (#[trigger] s[probe(start, e, n)]) is Live
            },
        decreases n - d,
    {
        let entry = entries[index];
        match entry {
            Entry::Empty => {
                proof {
                    if holds(s, key) {
                        let i = slot_of(s, key);
                        let di = distance(start, i, n);
                        assert(probe(start, di, n) == i);
                        assert(path_clear(s, start, di));
                        if di > d {
                            assert(!(s[probe(start, d, n)] is Empty));
                        } else if di < d {
                            assert(s[probe(start, di, n)] is Live);
                        }
                        assert(false);
                    }
                }
                match tombstone {
                    Some(t) => {
                        return t;
                    },
                    None => {
                        assert(distance(start, index as int, n) == d);
                        return index;
                    },
                }
            },
            Entry::Tombstone => {
                if tombstone.is_none() {
                    assert(distance(start, index as int, n) == d);
                    tombstone = Some(index);
                }
            },
            Entry::Live(k, _) => {
                if k == key {
                    assert(distance(start, index as int, n) == d);
                    return index;
                }
            },
        }
        assert(d != distance(start, hole, n)) by {
            assert(probe(start, distance(start, hole, n), n) == hole);
        }
        index = if index + 1 == cap { 0 } else { index + 1 };
        proof {
            d = d + 1;
        }
    }
}

/// A table from keys to values.
pub struct Table {
    entries: Vec<Entry>,
    live: usize,
    tombstones: usize,
}

impl View for Table {
    type V = Map<Key, Value>;

    /// The entries of the table as a map.
    closed spec fn view(&self) -> Map<Key, Value> {
        contents(self.entries@)
    }
}

impl Table {
    /// The number of slots.
    pub closed spec fn capacity(&self) -> nat {
        self.entries@.len()
    }

    /// The number of entries.
    pub closed spec fn size(&self) -> nat {
        self.live as nat
    }

    /// The number of tombstones.
    pub closed spec fn graves(&self) -> nat {
        self.tombstones as nat
    }

    /// What every table satisfies: it has no slots or a power of two of them,
    /// at least eight; live and dead slots together fill at most three quarters
    /// of it; no key lives twice; and every key is found from its home.
    pub closed spec fn wf(&self) -> bool {
        let s = self.entries@;
        &&& s.len() == 0 || (s.len() >= MIN_CAPACITY && power_of_two(s.len()))
        &&& self.live == occupied(s)
        &&& self.live + self.tombstones == filled(s)
        &&& filled(s) * 4 <= s.len() * 3
        &&& distinct(s)
        &&& reachable(s)
    }

    /// Whether the table can take one more key without its number of slots
    /// leaving the machine's range.
    pub open spec fn roomy(&self) -> bool {
        self.capacity() * 2 <= usize::MAX
    }

    /// A well-formed table is never fuller than three quarters, a table with
    /// entries has at least eight slots, a power of two of them, and holds as
    /// many entries as its map has keys.
    pub proof fn lemma_shape(&self)
        requires
            self.wf(),
        ensures
            (self.size() + self.graves()) * 4 <= self.capacity() * 3,
            self.capacity() == 0 || (self.capacity() >= 8 && power_of_two(self.capacity())),
            self.size() > 0 ==> self.capacity() >= 8,
            self@.dom().finite(),
            self@.dom().len() == self.size(),
    {
        lemma_contents_count(self.entries@);
    }

    /// An empty table, without slots.
    pub fn new() -> (t: Table)
        ensures
            t.wf(),
            t@ == Map::<Key, Value>::empty(),
            t.size() == 0,
            t.graves() == 0,
            t.capacity() == 0,
    {
        let t = Table { entries: Vec::new(), live: 0, tombstones: 0 };
        assert(t@ =~= Map::<Key, Value>::empty());
        t
    }

    /// The number of entries.
    pub fn len(&self) -> (n: usize)
        ensures
            n == self.size(),
    {
        self.live
    }

    /// The number of slots.
    pub fn slots(&self) -> (n: usize)
        ensures
            n == self.capacity(),
    {
        self.entries.len()
    }

    /// Whether `set` may be called.
    pub fn has_room(&self) -> (r: bool)
        ensures
            r == self.roomy(),
    {
        self.entries.len() <= usize::MAX / 2
    }

    /// The value stored under `key`, if there is one.
    pub fn get(&self, key: Key) -> (r: Option<Value>)
        requires
            self.wf(),
        ensures
            r == found(self@, key),
    {
        if self.entries.len() == 0 {
            return None;
        }
        proof {
            lemma_counts_bounded(self.entries@);
        }
        let r: usize = find_slot(&self.entries, key);
        match self.entries[r] {
            Entry::Live(_, value) => {
                proof {
                    lemma_slot_unique(self.entries@, r as int);
                }
                Some(value)
            },
            _ => None,
        }
    }

    /// Stores `value` under `key`. Returns whether the key is new to the table.
    /// The table grows first, to twice its slots and at least eight, when one
    /// more filled slot would take it over three quarters.
    pub fn set(&mut self, key: Key, value: Value) -> (created: bool)
        requires
            old(self).wf(),
            old(self).roomy(),
        ensures
            final(self).wf(),
            final(self)@ == changed(old(self)@, Change::Store(key, value)),
            created == answered(old(self)@, Change::Store(key, value)),
            final(self).size() == old(self).size() + (if created { 1nat } else { 0nat }),
            final(self).capacity() == (if grows(old(self).size(), old(self).graves(), old(self).capacity()) {
                doubled(old(self).capacity())
            } else {
                old(self).capacity()
            }),
            final(self).graves() <= old(self).graves(),
            grows(old(self).size(), old(self).graves(), old(self).capacity()) ==> final(self).graves() == 0,
            !grows(old(self).size(), old(self).graves(), old(self).capacity()) && !created ==> final(self).graves()
                == old(self).graves(),
    {
        proof {
            lemma_counts_bounded(self.entries@);
        }
        let cap: usize = self.entries.len();
        if (self.live as u128 + self.tombstones as u128 + 1) * 4 > (cap as u128) * 3 {
            self.grow();
        }
        proof {
            lemma_counts_bounded(self.entries@);
        }
        let r: usize = find_slot(&self.entries, key);
        let ghost before = self.entries@;
        proof {
            lemma_counts_update(before, r as int, Entry::Empty);
            lemma_counts_bounded(before.update(r as int, Entry::Empty));
        }
        let created: bool = match self.entries[r] {
            Entry::Live(_, _) => false,
            Entry::Tombstone => {
                self.live = self.live + 1;
                self.tombstones = self.tombstones - 1;
                true
            },
            Entry::Empty => {
                self.live = self.live + 1;
                true
            },
        };
        self.entries[r] = Entry::Live(key, value);
        proof {
            lemma_counts_update(before, r as int, Entry::Live(key, value));
            lemma_contents_store(before, r as int, key, value);
            lemma_reachable_store(before, r as int, Entry::Live(key, value));
            assert(self.entries@ == before.update(r as int, Entry::Live(key, value)));
        }
        created
    }

    /// Removes the entry under `key`, leaving a tombstone in its slot. Returns
    /// whether there was one.
    pub fn delete(&mut self, key: Key) -> (found: bool)
        requires
            old(self).wf(),
        ensures
            final(self).wf(),
            final(self)@ == changed(old(self)@, Change::Erase(key)),
            found == answered(old(self)@, Change::Erase(key)),
            final(self).size() == old(self).size() - (if found { 1int } else { 0int }),
            final(self).graves() == old(self).graves() + (if found { 1int } else { 0int }),
            final(self).capacity() == old(self).capacity(),
    {
        if self.entries.len() == 0 {
            assert(self@ =~= old(self)@.remove(key));
            return false;
        }
        proof {
            lemma_counts_bounded(self.entries@);
        }
        let r: usize = find_slot(&self.entries, key);
        let ghost before = self.entries@;
        proof {
            lemma_counts_update(before, r as int, Entry::Empty);
            lemma_counts_bounded(before.update(r as int, Entry::Empty));
        }
        match self.entries[r] {
            Entry::Live(_, _) => {
                self.entries[r] = Entry::Tombstone;
                self.live = self.live - 1;
                self.tombstones = self.tombstones + 1;
                proof {
                    lemma_counts_update(before, r as int, Entry::Tombstone);
                    lemma_contents_erase(before, r as int);
                    lemma_reachable_store(before, r as int, Entry::Tombstone);
                    assert(self.entries@ == before.update(r as int, Entry::Tombstone));
                }
                true
            },
            _ => {
                assert(self@ =~= old(self)@.remove(key));
                false
            },
        }
    }

    /// Looks for a key whose string has the given bytes, among the keys with
    /// the given hash, probing from the slot that the hash assigns.
    pub fn find_string(&self, heap: &ObjList, bytes: &[u8], hash: u32) -> (r: Option<Key>)
        requires
            self.wf(),
        ensures
            match r {
                Some(k) => self@.contains_key(k) && k.hash == hash && text_at(heap@, k.index as int) == Some(
                    bytes@,
                ),
                None => forall|k: Key| #[trigger]
                    self@.contains_key(k) && k.hash == hash ==> text_at(heap@, k.index as int) != Some(bytes@),
            },
    {
        let cap: usize = self.entries.len();
        if cap == 0 {
            return None;
        }
        let first: usize = (hash as usize) % cap;
        let mut index: usize = first;
        let ghost s = self.entries@;
        let ghost n = cap as int;
        let ghost start = first as int;
        proof {
            lemma_counts_bounded(s);
        }
        let ghost hole = lemma_has_empty(s);
        let ghost mut d: int = 0;
        loop
            invariant
                self.wf(),
                s == self.entries@,
                n == cap as int,
                n == s.len(),
                n > 0,
                0 <= start < n,
                start == (hash as int) % n,
                0 <= hole < n,
                s[hole] is Empty,
                0 <= d <= distance(start, hole, n),
                index as int == probe(start, d, n),
                0 <= index < cap,
                forall|e: int| 0 <= e < d ==> !((#[trigger] s[probe(start, e, n)]) is Empty),
                forall|e: int|
                    0 <= e < d && (#[trigger] s[probe(start, e, n)]) is Live && s[probe(start, e, n)]->Live_0.hash
                        == hash ==> text_at(heap@, s[probe(start, e, n)]->Live_0.index as int) != Some(bytes@),
            decreases n - d,
        {
            let entry = self.entries[index];
            match entry {
                Entry::Empty => {
                    proof {
                        assert forall|k: Key| #[trigger] self@.contains_key(k) && k.hash == hash implies text_at(
                            heap@,
                            k.index as int,
                        ) != Some(bytes@) by {
                            let i = slot_of(s, k);
                            let di = distance(start, i, n);
                            assert(s[i] is Live);
                            assert(home(k, n) == start);
                            assert(probe(start, di, n) == i);
                            assert(path_clear(s, start, di));
                            if di > d {
                                assert(!(s[probe(start, d, n)] is Empty));
                            } else if di < d {
                                assert(s[probe(start, di, n)] is Live);
                            }
                        }
                    }
                    return None;
                },
                Entry::Tombstone => {},
                Entry::Live(k, _) => {
                    if k.hash == hash {
                        match heap.text(k.index) {
                            Some(text) => {
                                if bytes_equal(text, bytes) {
                                    proof {
                                        lemma_slot_unique(s, index as int);
                                    }
                                    return Some(k);
                                }
                            },
                            None => {},
                        }
                    }
                },
            }
            assert(d != distance(start, hole, n)) by {
                assert(probe(start, distance(start, hole, n), n) == hole);
            }
            index = if index + 1 == cap { 0 } else { index + 1 };
            proof {
                d = d + 1;
            }
        }
    }

    /// Releases the slots; the table is empty afterwards.
    pub fn free(&mut self)
        ensures
            final(self).wf(),
            final(self)@ == Map::<Key, Value>::empty(),
            final(self).size() == 0,
            final(self).capacity() == 0,
    {
        self.entries = Vec::new();
        self.live = 0;
        self.tombstones = 0;
        assert(self@ =~= Map::<Key, Value>::empty());
    }

    /// Takes the tombstones out of the table: where it holds any, the live
    /// entries are moved into a new array of as many slots. The entries, and
    /// the number of slots, stay as they are.
    pub fn settle(&mut self)
        requires
            old(self).wf(),
        ensures
            final(self).wf(),
            final(self)@ == old(self)@,
            final(self).size() == old(self).size(),
            final(self).capacity() == old(self).capacity(),
            final(self).graves() == 0,
    {
        if self.tombstones > 0 {
            proof {
                lemma_counts_bounded(self.entries@);
            }
            let cap: usize = self.entries.len();
            self.rebuild(cap);
        }
    }

    /// Moves the live entries into a new array of twice the slots, at least
    /// eight. The tombstones are left behind.
    fn grow(&mut self)
        requires
            old(self).wf(),
            old(self).roomy(),
        ensures
            final(self).wf(),
            final(self)@ == old(self)@,
            final(self).live == old(self).live,
            final(self).tombstones == 0,
            final(self).entries@.len() == doubled(old(self).entries@.len()),
    {
        let old_cap: usize = self.entries.len();
        let new_cap: usize = if old_cap < MIN_CAPACITY { MIN_CAPACITY } else { old_cap * 2 };
        proof {
            lemma_counts_bounded(self.entries@);
            assert(power_of_two(new_cap as nat)) by {
                if old_cap < MIN_CAPACITY {
                    reveal_with_fuel(power_of_two, 5);
                }
            }
        }
        self.rebuild(new_cap);
    }

    /// Moves the live entries into a new array of `new_cap` slots. The
    /// tombstones are left behind.
    fn rebuild(&mut self, new_cap: usize)
        requires
            old(self).wf(),
            new_cap >= MIN_CAPACITY,
            new_cap >= old(self).entries@.len(),
            power_of_two(new_cap as nat),
        ensures
            final(self).wf(),
            final(self)@ == old(self)@,
            final(self).live == old(self).live,
            final(self).tombstones == 0,
            final(self).entries@.len() == new_cap,
    {
        let old_cap: usize = self.entries.len();
        let mut fresh: Vec<Entry> = Vec::new();
        let mut k: usize = 0;
        while k < new_cap
            invariant
                k <= new_cap,
                fresh@.len() == k,
                forall|j: int| 0 <= j < k ==> (#[trigger] fresh@[j]) is Empty,
                filled(fresh@) == 0,
                occupied(fresh@) == 0,
            decreases new_cap - k,
        {
            proof {
                lemma_counts_push(fresh@, Entry::Empty);
            }
            fresh.push(Entry::Empty);
            k = k + 1;
        }
        let ghost s = self.entries@;
        proof {
            lemma_counts_bounded(s);
            assert(contents(fresh@) =~= contents(s.take(0)));
        }
        let mut count: usize = 0;
        let mut i: usize = 0;
        while i < old_cap
            invariant
                s == self.entries@,
                old_cap == s.len(),
                distinct(s),
                i <= old_cap,
                old_cap <= new_cap,
                new_cap >= MIN_CAPACITY,
                filled(s) * 4 <= old_cap * 3,
                occupied(s) <= filled(s),
                fresh@.len() == new_cap,
                count == occupied(s.take(i as int)),
                filled(fresh@) == count,
                occupied(fresh@) == count,
                forall|j: int| 0 <= j < new_cap ==> !((#[trigger] fresh@[j]) is Tombstone),
                distinct(fresh@),
                reachable(fresh@),
                contents(fresh@) == contents(s.take(i as int)),
            decreases old_cap - i,
        {
            let entry = self.entries[i];
            proof {
                assert(s.take(i as int + 1) =~= s.take(i as int).push(s[i as int]));
                lemma_counts_push(s.take(i as int), s[i as int]);
                lemma_occupied_prefix(s, i as int + 1);
            }
            match entry {
                Entry::Live(key, value) => {
                    let ghost before = fresh@;
                    proof {
                        if holds(s.take(i as int), key) {
                            let j = slot_of(s.take(i as int), key);
                            assert(s[j] is Live && s[j]->Live_0 == s[i as int]->Live_0);
                        }
                        assert(!contents(before).contains_key(key));
                    }
                    let r: usize = find_slot(&fresh, key);
                    fresh[r] = Entry::Live(key, value);
                    count = count + 1;
                    proof {
                        lemma_counts_update(before, r as int, Entry::Live(key, value));
                        lemma_contents_store(before, r as int, key, value);
                        lemma_reachable_store(before, r as int, Entry::Live(key, value));
                        lemma_contents_push(s.take(i as int), s[i as int]);
                    }
                },
                _ => {
                    proof {
                        lemma_contents_push(s.take(i as int), s[i as int]);
                    }
                },
            }
            i = i + 1;
        }
        proof {
            assert(s.take(old_cap as int) =~= s);
        }
        self.entries = fresh;
        self.live = count;
        self.tombstones = 0;
    }
}

/// One more slot adds its entry to the map, if it holds one.
/// A part of the slots from the start holds no more live ones than all of
/// them.
proof fn lemma_occupied_prefix(s: Seq<Entry>, i: int)
    requires
        0 <= i <= s.len(),
    ensures
        occupied(s.take(i)) <= occupied(s),
    decreases s.len() - i,
{
    if i < s.len() {
        assert(s.take(i + 1) =~= s.take(i).push(s[i]));
        lemma_counts_push(s.take(i), s[i]);
        lemma_occupied_prefix(s, i + 1);
    } else {
        assert(s.take(i) =~= s);
    }
}

/// One more slot adds its entry to the map, if it holds one.
proof fn lemma_contents_push(s: Seq<Entry>, e: Entry)
    requires
        e is Live ==> !holds(s, e->Live_0),
        distinct(s),
    ensures
        e is Live ==> contents(s.push(e)) == contents(s).insert(e->Live_0, e->Live_1),
        !(e is Live) ==> contents(s.push(e)) == contents(s),
        distinct(s.push(e)),
{
    let t = s.push(e);
    assert(distinct(t)) by {
        assert forall|i: int, j: int|
            0 <= i < t.len() && 0 <= j < t.len() && (#[trigger] t[i]) is Live && (#[trigger] t[j]) is Live
                && t[i]->Live_0 == t[j]->Live_0 implies i == j by {
            if i < s.len() && j < s.len() {
                assert(s[i] is Live && s[j] is Live);
            } else if i < s.len() {
                assert(s[i] is Live && s[i]->Live_0 == e->Live_0);
            } else if j < s.len() {
                assert(s[j] is Live && s[j]->Live_0 == e->Live_0);
            }
        }
    }
    assert forall|k: Key| holds(t, k) <==> (holds(s, k) || (e is Live && e->Live_0 == k)) by {
        if holds(t, k) {
            let i = slot_of(t, k);
            if i < s.len() {
                assert(s[i] is Live && s[i]->Live_0 == k);
            }
        }
        if holds(s, k) {
            let i = slot_of(s, k);
            assert(t[i] is Live && t[i]->Live_0 == k);
        }
        if e is Live && e->Live_0 == k {
            assert(t[s.len() as int] is Live && t[s.len() as int]->Live_0 == k);
        }
    }
    assert forall|k: Key| holds(t, k) implies #[trigger] contents(t)[k] == (if e is Live && e->Live_0 == k {
        e->Live_1
    } else {
        contents(s)[k]
    }) by {
        let i = slot_of(t, k);
        lemma_slot_unique(t, i);
        if i < s.len() {
            assert(s[i] is Live && s[i]->Live_0 == k);
            lemma_slot_unique(s, i);
        }
    }
    if e is Live {
        assert(contents(t) =~= contents(s).insert(e->Live_0, e->Live_1));
    } else {
        assert(contents(t) =~= contents(s));
    }
}

/// Where no key lives twice, the map has as many keys as there are live slots.
proof fn lemma_contents_count(s: Seq<Entry>)
    requires
        distinct(s),
    ensures
        contents(s).dom().finite(),
        contents(s).dom().len() == occupied(s),
    decreases s.len(),
{
    if s.len() == 0 {
        assert(contents(s).dom() =~= Set::<Key>::empty());
    } else {
        let p = s.drop_last();
        let e = s.last();
        assert(s =~= p.push(e));
        assert(distinct(p)) by {
            assert forall|i: int, j: int|
                0 <= i < p.len() && 0 <= j < p.len() && (#[trigger] p[i]) is Live && (#[trigger] p[j]) is Live
                    && p[i]->Live_0 == p[j]->Live_0 implies i == j by {
                assert(s[i] is Live && s[j] is Live);
            }
        }
        lemma_contents_count(p);
        if e is Live {
            if holds(p, e->Live_0) {
                let j = slot_of(p, e->Live_0);
                assert(s[j] is Live && s[s.len() - 1] is Live);
                assert(false);
            }
        }
        lemma_contents_push(p, e);
        if e is Live {
            assert(contents(s).dom() =~= contents(p).dom().insert(e->Live_0));
            assert(!contents(p).dom().contains(e->Live_0));
        }
    }
}

} // verus!
