//! An open-addressing hash table from byte strings to 64-bit values, with
//! linear probing, tombstones for deleted keys and growth by rehashing.

use vstd::prelude::*;

use vstd::arithmetic::div_mod::{lemma_mod_multiples_vanish, lemma_small_mod};
use vstd::string::StringSliceAdditionalSpecFns;
use vstd::wrapping::u64_specs;

verus! {

/// Initial number of buckets.
pub const INIT_SIZE: i32 = 16;

/// Load (in percent of the buckets in use) at which the table grows.
pub const HIGH_WATERMARK: i32 = 70;

/// Load the table is grown to stay under.
pub const LOW_WATERMARK: i32 = 50;

/// What a bucket holds: nothing yet, the mark of a deleted key, or a key.
#[derive(Debug)]
pub enum SlotKey {
    Empty,
    Tombstone,
    Key(Vec<u8>),
}

/// A bucket.
#[derive(Debug)]
pub struct HashEntry {
    pub key: SlotKey,
    pub val: u64,
}

/// The hash table. `used` counts the buckets that are not empty (keys and
/// tombstones).
#[derive(Debug)]
pub struct HashMap {
    pub buckets: Vec<HashEntry>,
    pub capacity: i32,
    pub used: i32,
}

/// The abstract value of a bucket's key.
pub enum SlotV {
    Empty,
    Tombstone,
    Key(Seq<u8>),
}

/// The abstract value of a bucket.
pub struct EntryV {
    pub key: SlotV,
    pub val: u64,
}

impl View for HashEntry {
    type V = EntryV;

    open spec fn view(&self) -> EntryV {
        EntryV {
            key: match self.key {
                SlotKey::Empty => SlotV::Empty,
                SlotKey::Tombstone => SlotV::Tombstone,
                SlotKey::Key(k) => SlotV::Key(k@),
            },
            val: self.val,
        }
    }
}

/// The buckets of a table, by value.
pub open spec fn slots(m: HashMap) -> Seq<EntryV> {
    m.buckets@.map_values(|e: HashEntry| e@)
}

// ---------------------------------------------------------------------------
// Hashing and probing

/// The 64-bit FNV-1 hash of a byte string.
pub open spec fn fnv(s: Seq<u8>) -> u64
    decreases s.len(),
{
    if s.len() == 0 {
        0xcbf29ce484222325u64
    } else {
        u64_specs::wrapping_mul(fnv(s.drop_last()), 0x100000001b3u64) ^ (s.last() as u64)
    }
}

/// The 64-bit FNV-1 hash of a byte string.
pub fn fnv_hash(key: &[u8]) -> (r: u64)
    ensures
        r == fnv(key@),
{
    let mut hash: u64 = 0xcbf29ce484222325;
    let mut i: usize = 0;
    while i < key.len()
        invariant
            i <= key.len(),
            hash == fnv(key@.take(i as int)),
        decreases key.len() - i,
    {
        assert(key@.take(i + 1).drop_last() =~= key@.take(i as int));
        hash = hash.wrapping_mul(0x100000001b3);
        hash = hash ^ (key[i] as u64);
        i += 1;
    }
    assert(key@.take(key.len() as int) =~= key@);
    hash
}

/// The `i`-th bucket probed for hash `h` in a table of `cap` buckets.
pub open spec fn probe(h: u64, i: int, cap: int) -> int {
    (u64_specs::wrapping_add(h, i as u64) as int) % cap
}

/// The `i`-th bucket probed for hash `h` in a table of `cap` buckets.
pub fn probe_index(hash: u64, i: i32, capacity: i32) -> (r: usize)
    requires
        0 <= i,
        0 < capacity,
    ensures
        r == probe(hash, i as int, capacity as int),
        r < capacity,
{
    (hash.wrapping_add(i as u64) % (capacity as u64)) as usize
}

/// Two to the power `k`.
pub open spec fn pow_two(k: nat) -> int
    decreases k,
{
    if k == 0 {
        1
    } else {
        2 * pow_two((k - 1) as nat)
    }
}

/// Bucket counts the table uses: powers of two from 16 to 2^30.
pub open spec fn cap_ok(c: int) -> bool {
    exists|k: nat| 4 <= k <= 30 && #[trigger] pow_two(k) == c
}

proof fn lemma_pow_two_split(a: nat, b: nat)
    ensures
        pow_two(a + b) == pow_two(a) * pow_two(b),
    decreases b,
{
    if b > 0 {
        lemma_pow_two_split(a, (b - 1) as nat);
        assert(pow_two(a + b) == 2 * pow_two((a + b - 1) as nat));
        let x = pow_two(a);
        let y = pow_two((b - 1) as nat);
        assert(2 * (x * y) == x * (2 * y)) by (nonlinear_arith);
    }
}

proof fn lemma_pow_two_64()
    ensures
        pow_two(64) == 0x1_0000_0000_0000_0000,
{
    reveal_with_fuel(pow_two, 65);
}

proof fn lemma_pow_two_pos(k: nat)
    ensures
        pow_two(k) >= 1,
    decreases k,
{
    if k > 0 {
        lemma_pow_two_pos((k - 1) as nat);
    }
}

/// Every bucket of a table of `cap` buckets is among the first `cap`
/// probed, whatever the hash: the probe that lands on bucket `j`.
proof fn lemma_probe_reaches(h: u64, cap: int, j: int) -> (i: int)
    requires
        cap_ok(cap),
        0 <= j < cap,
    ensures
        0 <= i < cap,
        probe(h, i, cap) == j,
{
    let k = choose|k: nat| 4 <= k <= 30 && #[trigger] pow_two(k) == cap;
    lemma_pow_two_split(k, (64 - k) as nat);
    lemma_pow_two_64();
    lemma_pow_two_pos((64 - k) as nat);
    let q = pow_two((64 - k) as nat);
    let big: int = 0x1_0000_0000_0000_0000;
    assert(big == cap * q);
    let r = (h as int) % cap;
    let qh = (h as int) / cap;
    assert(h as int == cap * qh + r && 0 <= r < cap) by (nonlinear_arith)
        requires
            cap > 0,
            r == (h as int) % cap,
            qh == (h as int) / cap,
    ;
    let i = if j >= r {
        j - r
    } else {
        j - r + cap
    };
    assert(h as int + i == cap * qh + (r + i));
    lemma_mod_multiples_vanish(qh, r + i, cap);
    if j >= r {
        assert(r + i == j);
        lemma_small_mod(j as nat, cap as nat);
    } else {
        assert(r + i == cap * 1 + j);
        lemma_mod_multiples_vanish(1, j, cap);
        lemma_small_mod(j as nat, cap as nat);
    }
    assert((h as int + i) % cap == j);
    let s = h as int + i;
    assert(cap <= big) by (nonlinear_arith)
        requires
            big == cap * q,
            q >= 1,
            cap > 0,
    ;
    assert((i as u64) as int == i);
    if s > u64::MAX {
        assert(u64_specs::wrapping_add(h, i as u64) as int == s - big);
        lemma_mod_multiples_vanish(-q, s, cap);
        assert(cap * (-q) + s == s - big) by (nonlinear_arith)
            requires
                big == cap * q,
        ;
    } else {
        assert(u64_specs::wrapping_add(h, i as u64) as int == s);
    }
    i
}

// ---------------------------------------------------------------------------
// Invariant

/// Whether a bucket is empty.
pub open spec fn is_empty(e: EntryV) -> bool {
    e.key is Empty
}

/// The number of buckets that are not empty.
pub open spec fn count_used(b: Seq<EntryV>) -> int
    decreases b.len(),
{
    if b.len() == 0 {
        0
    } else {
        count_used(b.drop_last()) + if is_empty(b.last()) {
            0int
        } else {
            1int
        }
    }
}

proof fn lemma_count_used_bounds(b: Seq<EntryV>)
    ensures
        0 <= count_used(b) <= b.len(),
        count_used(b) < b.len() ==> exists|j: int| 0 <= j < b.len() && is_empty(#[trigger] b[j]),
    decreases b.len(),
{
    if b.len() > 0 {
        lemma_count_used_bounds(b.drop_last());
        if count_used(b) < b.len() && !is_empty(b.last()) {
            let j = choose|j: int| 0 <= j < b.drop_last().len() && is_empty(#[trigger] b.drop_last()[j]);
            assert(b[j] == b.drop_last()[j]);
        }
    }
}

proof fn lemma_count_used_update(b: Seq<EntryV>, j: int, e: EntryV)
    requires
        0 <= j < b.len(),
    ensures
        count_used(b.update(j, e)) == count_used(b) - (if is_empty(b[j]) {
            0int
        } else {
            1int
        }) + (if is_empty(e) {
            0int
        } else {
            1int
        }),
    decreases b.len(),
{
    if j < b.len() - 1 {
        assert(b.update(j, e).drop_last() =~= b.drop_last().update(j, e));
        lemma_count_used_update(b.drop_last(), j, e);
    } else {
        assert(b.update(j, e).drop_last() =~= b.drop_last());
    }
}

/// The table's invariant: one bucket per unit of capacity, a capacity that
/// is a power of two, and an accurate count of the non-empty buckets, which
/// always leaves an empty one.
pub open spec fn wf(m: HashMap) -> bool {
    &&& m.buckets@.len() == m.capacity
    &&& m.capacity == 0 || cap_ok(m.capacity as int)
    &&& m.used == count_used(slots(m))
    &&& m.capacity == 0 || m.used < m.capacity
}

/// An empty table.
pub fn new_hashmap() -> (m: HashMap)
    ensures
        wf(m),
        m.capacity == 0,
{
    let m = HashMap { buckets: Vec::new(), capacity: 0, used: 0 };
    assert(slots(m) =~= Seq::<EntryV>::empty());
    m
}

// ---------------------------------------------------------------------------
// Lookup

/// Whether bucket `e` holds key `key`.
pub open spec fn holds(e: EntryV, key: Seq<u8>) -> bool {
    e.key matches SlotV::Key(k) && k == key
}

/// Where the search for `key` ends, probing from the `i`-th bucket: the
/// bucket holding the key, or `None` at an empty bucket (or when every
/// bucket has been probed).
pub open spec fn find_slot(b: Seq<EntryV>, h: u64, key: Seq<u8>, i: int) -> Option<int>
    decreases b.len() - i,
{
    if i < 0 || i >= b.len() {
        None
    } else {
        let idx = probe(h, i, b.len() as int);
        if holds(b[idx], key) {
            Some(idx)
        } else if is_empty(b[idx]) {
            None
        } else {
            find_slot(b, h, key, i + 1)
        }
    }
}

/// The value stored for `key`, or 0 (a null value) when there is none.
pub open spec fn spec_get(b: Seq<EntryV>, key: Seq<u8>) -> u64 {
    match find_slot(b, fnv(key), key, 0) {
        Some(idx) => b[idx].val,
        None => 0,
    }
}

proof fn lemma_find_slot_bounds(b: Seq<EntryV>, h: u64, key: Seq<u8>, i: int)
    ensures
        find_slot(b, h, key, i) matches Some(idx) ==> 0 <= idx < b.len() && holds(b[idx], key),
    decreases b.len() - i,
{
    if 0 <= i < b.len() {
        lemma_find_slot_bounds(b, h, key, i + 1);
    }
}

fn bytes_eq(a: &[u8], b: &[u8]) -> (r: bool)
    ensures
        r == (a@ == b@),
{
    if a.len() != b.len() {
        assert(a@.len() != b@.len());
        return false;
    }
    let mut i: usize = 0;
    while i < b.len()
        invariant
            a.len() == b.len(),
            i <= b.len(),
            forall|j: int| 0 <= j < i ==> a@[j] == b@[j],
        decreases b.len() - i,
    {
        if a[i] != b[i] {
            assert(a@[i as int] != b@[i as int]);
            return false;
        }
        i += 1;
    }
    assert(a@ =~= b@);
    true
}

fn slot_holds(e: &HashEntry, key: &[u8]) -> (r: bool)
    ensures
        r == holds(e@, key@),
{
    match &e.key {
        SlotKey::Key(k) => bytes_eq(k.as_slice(), key),
        _ => false,
    }
}

/// The bucket holding `key`, if the search finds it.
pub fn get_entry(map: &HashMap, key: &[u8]) -> (r: Option<usize>)
    requires
        wf(*map),
    ensures
        map.capacity == 0 ==> r.is_none(),
        map.capacity > 0 ==> match find_slot(slots(*map), fnv(key@), key@, 0) {
            Some(idx) => r == Some(idx as usize) && 0 <= idx < map.buckets@.len(),
            None => r.is_none(),
        },
{
    if map.buckets.len() == 0 {
        return None;
    }
    let ghost b = slots(*map);
    let hash = fnv_hash(key);
    let cap = map.capacity;
    proof {
        lemma_find_slot_bounds(b, hash, key@, 0);
        lemma_count_used_bounds(b);
    }
    let mut i: i32 = 0;
    while i < cap
        invariant
            0 <= i <= cap,
            cap == map.capacity,
            b == slots(*map),
            wf(*map),
            cap > 0,
            hash == fnv(key@),
            find_slot(b, hash, key@, 0) == find_slot(b, hash, key@, i as int),
            forall|i2: int| 0 <= i2 < i ==> !is_empty(#[trigger] b[probe(hash, i2, cap as int)]),
        decreases cap - i,
    {
        let idx = probe_index(hash, i, cap);
        let ent = &map.buckets[idx];
        assert(b[idx as int] == ent@);
        if slot_holds(ent, key) {
            return Some(idx);
        }
        if let SlotKey::Empty = ent.key {
            return None;
        }
        i += 1;
    }
    proof {
        let j = choose|j: int| 0 <= j < b.len() && is_empty(#[trigger] b[j]);
        let i2 = lemma_probe_reaches(hash, cap as int, j);
        assert(!is_empty(b[probe(hash, i2, cap as int)]));
    }
    None
}

/// The value stored for `key`, or 0 when there is none.
pub fn hashmap_get_bytes(map: &HashMap, key: &[u8]) -> (r: u64)
    requires
        wf(*map),
    ensures
        r == if map.capacity == 0 {
            0
        } else {
            spec_get(slots(*map), key@)
        },
{
    match get_entry(map, key) {
        Some(idx) => map.buckets[idx].val,
        None => 0,
    }
}

/// Whether a value other than 0 is stored for `key`.
pub fn hashmap_contains_bytes(map: &HashMap, key: &[u8]) -> (r: bool)
    requires
        wf(*map),
    ensures
        r == (map.capacity > 0 && spec_get(slots(*map), key@) != 0),
{
    hashmap_get_bytes(map, key) != 0
}

// ---------------------------------------------------------------------------
// Insertion

/// Whether a bucket holds a tombstone.
pub open spec fn is_tomb(e: EntryV) -> bool {
    e.key is Tombstone
}

/// Where `key` goes, probing from the `i`-th bucket: the bucket holding it,
/// or else the first tombstone or empty bucket met.
pub open spec fn insert_slot(b: Seq<EntryV>, h: u64, key: Seq<u8>, i: int) -> Option<int>
    decreases b.len() - i,
{
    if i < 0 || i >= b.len() {
        None
    } else {
        let idx = probe(h, i, b.len() as int);
        if holds(b[idx], key) || is_tomb(b[idx]) || is_empty(b[idx]) {
            Some(idx)
        } else {
            insert_slot(b, h, key, i + 1)
        }
    }
}

proof fn lemma_insert_slot_bounds(b: Seq<EntryV>, h: u64, key: Seq<u8>, i: int)
    ensures
        insert_slot(b, h, key, i) matches Some(idx) ==> 0 <= idx < b.len() && (holds(b[idx], key)
            || is_tomb(b[idx]) || is_empty(b[idx])),
    decreases b.len() - i,
{
    if 0 <= i < b.len() {
        lemma_insert_slot_bounds(b, h, key, i + 1);
    }
}

/// The buckets and count after storing `val` under `key` without growing:
/// the bucket where the key goes gets the key and the value; the count goes
/// up when that bucket was empty.
pub open spec fn put_into(b: Seq<EntryV>, used: int, key: Seq<u8>, val: u64) -> (Seq<EntryV>, int) {
    match insert_slot(b, fnv(key), key, 0) {
        Some(p) => (
            b.update(p, EntryV { key: SlotV::Key(key), val }),
            used + if is_empty(b[p]) {
                1int
            } else {
                0int
            },
        ),
        None => (b, used),
    }
}

fn copy_bytes(v: &[u8]) -> (r: Vec<u8>)
    ensures
        r@ == v@,
{
    let mut out: Vec<u8> = Vec::new();
    let mut i: usize = 0;
    while i < v.len()
        invariant
            i <= v.len(),
            out@ == v@.take(i as int),
        decreases v.len() - i,
    {
        out.push(v[i]);
        i += 1;
        assert(out@ == v@.take(i as int));
    }
    assert(v@.take(v.len() as int) =~= v@);
    out
}

/// Stores `val` under `key` in a table with room for one more bucket.
fn put_no_grow(map: &mut HashMap, key: &[u8], val: u64)
    requires
        wf(*old(map)),
        old(map).capacity > 0,
        old(map).used + 1 < old(map).capacity,
    ensures
        wf(*final(map)),
        final(map).capacity == old(map).capacity,
        (slots(*final(map)), final(map).used as int) == put_into(
            slots(*old(map)),
            old(map).used as int,
            key@,
            val,
        ),
{
    let ghost b = slots(*map);
    let hash = fnv_hash(key);
    let cap = map.capacity;
    proof {
        lemma_insert_slot_bounds(b, hash, key@, 0);
        lemma_count_used_bounds(b);
    }
    let mut i: i32 = 0;
    while i < cap
        invariant
            0 <= i <= cap,
            cap == map.capacity,
            b == slots(*map),
            wf(*map),
            *map == *old(map),
            old(map).used + 1 < old(map).capacity,
            cap > 0,
            hash == fnv(key@),
            insert_slot(b, hash, key@, 0) == insert_slot(b, hash, key@, i as int),
            forall|i2: int| 0 <= i2 < i ==> !is_empty(#[trigger] b[probe(hash, i2, cap as int)]),
        decreases cap - i,
    {
        let idx = probe_index(hash, i, cap);
        let found = slot_holds(&map.buckets[idx], key);
        let was_empty = match map.buckets[idx].key {
            SlotKey::Empty => true,
            _ => false,
        };
        let was_tomb = match map.buckets[idx].key {
            SlotKey::Tombstone => true,
            _ => false,
        };
        assert(b[idx as int] == map.buckets@[idx as int]@);
        if found || was_empty || was_tomb {
            let ghost e = EntryV { key: SlotV::Key(key@), val };
            let entry = HashEntry { key: SlotKey::Key(copy_bytes(key)), val };
            map.buckets.set(idx, entry);
            if was_empty {
                map.used = map.used + 1;
            }
            proof {
                assert(slots(*map) =~= b.update(idx as int, e));
                lemma_count_used_update(b, idx as int, e);
            }
            return ;
        }
        i += 1;
    }
    proof {
        let j = choose|j: int| 0 <= j < b.len() && is_empty(#[trigger] b[j]);
        let i2 = lemma_probe_reaches(hash, cap as int, j);
        assert(!is_empty(b[probe(hash, i2, cap as int)]));
    }
}

// ---------------------------------------------------------------------------
// Growth

/// Whether a bucket holds a key.
pub open spec fn is_key(e: EntryV) -> bool {
    e.key is Key
}

/// The number of buckets that hold a key.
pub open spec fn count_keys(b: Seq<EntryV>) -> int
    decreases b.len(),
{
    if b.len() == 0 {
        0
    } else {
        count_keys(b.drop_last()) + if is_key(b.last()) {
            1int
        } else {
            0int
        }
    }
}

proof fn lemma_count_keys_le_used(b: Seq<EntryV>)
    ensures
        0 <= count_keys(b) <= count_used(b),
    decreases b.len(),
{
    if b.len() > 0 {
        lemma_count_keys_le_used(b.drop_last());
    }
}

pub proof fn lemma_grow_step(n: int, cap: int)
    requires
        cap > 0,
        n >= 0,
        (n * 100) / cap >= 50,
    ensures
        cap <= 2 * n,
{
    let q = (n * 100) / cap;
    assert(q * cap <= n * 100) by (nonlinear_arith)
        requires
            cap > 0,
            q == (n * 100) / cap,
    ;
    assert(50 * cap <= q * cap) by (nonlinear_arith)
        requires
            q >= 50,
            cap > 0,
    ;
}

/// The bucket count after growth for `n` keys: doubled until the keys
/// fill less than half of it.
pub open spec fn grow_cap(n: int, cap: int) -> int
    decreases 4 * n + 2 - cap,
{
    if cap <= 0 || n < 0 || (n * 100) / cap < 50 {
        cap
    } else {
        proof {
            lemma_grow_step(n, cap);
        }
        grow_cap(n, cap * 2)
    }
}

/// A table of `cap` empty buckets.
pub open spec fn fresh(cap: int) -> Seq<EntryV> {
    Seq::new(cap as nat, |i: int| EntryV { key: SlotV::Empty, val: 0 })
}

/// The buckets and count of a table of `cap` buckets after the keys of the
/// first `n` buckets of `b` are stored in it, in order.
pub open spec fn reinserted(b: Seq<EntryV>, n: int, cap: int) -> (Seq<EntryV>, int)
    decreases n,
{
    if n <= 0 {
        (fresh(cap), 0)
    } else {
        let t = reinserted(b, n - 1, cap);
        match b[n - 1].key {
            SlotV::Key(k) => put_into(t.0, t.1, k, b[n - 1].val),
            _ => t,
        }
    }
}

/// The buckets, count and capacity after a table grows: every key moved,
/// in bucket order, into a table big enough for the keys to fill less than
/// half of it. Tombstones are dropped.
pub open spec fn rehashed(b: Seq<EntryV>, cap: int) -> (Seq<EntryV>, int, int) {
    let cap2 = grow_cap(count_keys(b), cap);
    let t = reinserted(b, b.len() as int, cap2);
    (t.0, t.1, cap2)
}

/// Whether no key is in two buckets.
pub open spec fn distinct_keys(b: Seq<EntryV>) -> bool {
    forall|i: int, j: int|
        0 <= i < j < b.len() && is_key(b[i]) && is_key(b[j]) ==> #[trigger] b[i].key != #[trigger] b[j].key
}

proof fn lemma_pow_two_mono(a: nat, b: nat)
    requires
        a <= b,
    ensures
        pow_two(a) <= pow_two(b),
    decreases b - a,
{
    if a < b {
        lemma_pow_two_mono(a, (b - 1) as nat);
        lemma_pow_two_pos((b - 1) as nat);
    }
}

proof fn lemma_cap_double(cap: int)
    requires
        cap_ok(cap),
        cap < 0x4000000,
    ensures
        cap_ok(cap * 2),
{
    let k = choose|k: nat| 4 <= k <= 30 && #[trigger] pow_two(k) == cap;
    reveal_with_fuel(pow_two, 27);
    if k >= 26 {
        lemma_pow_two_mono(26, k);
        assert(pow_two(26) == 0x4000000);
    }
    assert(pow_two(k + 1) == cap * 2);
}

proof fn lemma_fresh_count(cap: int)
    requires
        cap >= 0,
    ensures
        count_used(fresh(cap)) == 0,
        count_keys(fresh(cap)) == 0,
    decreases cap,
{
    if cap > 0 {
        assert(fresh(cap).drop_last() =~= fresh(cap - 1));
        lemma_fresh_count(cap - 1);
    }
}

fn fresh_buckets(cap: i32) -> (r: Vec<HashEntry>)
    requires
        cap >= 0,
    ensures
        r@.map_values(|e: HashEntry| e@) == fresh(cap as int),
{
    let mut v: Vec<HashEntry> = Vec::new();
    let mut i: i32 = 0;
    while i < cap
        invariant
            0 <= i <= cap,
            v@.map_values(|e: HashEntry| e@) == fresh(i as int),
        decreases cap - i,
    {
        let ghost before = v@.map_values(|e: HashEntry| e@);
        v.push(HashEntry { key: SlotKey::Empty, val: 0 });
        i += 1;
        assert(v@.map_values(|e: HashEntry| e@) =~= before.push(
            EntryV { key: SlotV::Empty, val: 0 },
        ));
        assert(fresh(i as int) =~= fresh(i - 1).push(EntryV { key: SlotV::Empty, val: 0 }));
    }
    v
}

/// Moves every key into a table big enough for the keys to fill less than
/// half of it.
fn rehash(map: &mut HashMap)
    requires
        wf(*old(map)),
        old(map).capacity > 0,
        old(map).used <= i32::MAX / 100,
    ensures
        wf(*final(map)),
        (slots(*final(map)), final(map).used as int, final(map).capacity as int) == rehashed(
            slots(*old(map)),
            old(map).capacity as int,
        ),
        (final(map).used as int) * 100 < 50 * (final(map).capacity as int),
        forall|k: Seq<u8>| #[trigger] spec_get(slots(*final(map)), k) == stored_value(
            slots(*old(map)),
            slots(*old(map)).len() as int,
            k,
        ),
{
    let ghost b = slots(*map);
    proof {
        lemma_count_keys_le_used(b);
    }
    let mut nkeys: i32 = 0;
    let mut i: usize = 0;
    while i < map.buckets.len()
        invariant
            i <= map.buckets.len(),
            b == slots(*map),
            nkeys == count_keys(b.take(i as int)),
            count_keys(b) <= map.used <= i32::MAX / 100,
            count_keys(b.take(i as int)) <= count_keys(b),
        decreases map.buckets.len() - i,
    {
        assert(b.take(i + 1).drop_last() =~= b.take(i as int));
        proof {
            lemma_count_keys_prefix(b, i as int + 1);
        }
        if let SlotKey::Key(_) = map.buckets[i].key {
            nkeys = nkeys + 1;
        }
        i += 1;
    }
    assert(b.take(b.len() as int) =~= b);
    let mut cap = map.capacity;
    assert(grow_cap(nkeys as int, cap as int) == grow_cap(nkeys as int, map.capacity as int));
    while (nkeys * 100) / cap >= 50
        invariant
            cap > 0,
            cap_ok(cap as int),
            0 <= nkeys <= i32::MAX / 100,
            grow_cap(nkeys as int, cap as int) == grow_cap(nkeys as int, old(map).capacity as int),
        decreases 4 * nkeys + 2 - cap,
    {
        proof {
            lemma_grow_step(nkeys as int, cap as int);
            lemma_cap_double(cap as int);
        }
        cap = cap * 2;
    }
    let ghost cap2 = cap as int;
    proof {
        lemma_fresh_count(cap2);
        let x = nkeys as int * 100;
        assert(x < 50 * cap2) by (nonlinear_arith)
            requires
                x / cap2 < 50,
                cap2 > 0,
                x >= 0,
        ;
    }
    let mut map2 = HashMap { buckets: fresh_buckets(cap), capacity: cap, used: 0 };
    let mut j: usize = 0;
    while j < map.buckets.len()
        invariant
            j <= map.buckets.len(),
            b == slots(*map),
            wf(map2),
            map2.capacity == cap,
            cap as int == cap2,
            cap2 == grow_cap(count_keys(b), old(map).capacity as int),
            (nkeys as int) * 100 < 50 * cap2,
            nkeys == count_keys(b),
            (slots(map2), map2.used as int) == reinserted(b, j as int, cap2),
            map2.used <= count_keys(b.take(j as int)),
            count_keys(b.take(j as int)) <= count_keys(b),
            forall|k: Seq<u8>| #[trigger] spec_get(slots(map2), k) == stored_value(b, j as int, k),
        decreases map.buckets.len() - j,
    {
        proof {
            lemma_count_keys_prefix(b, j as int + 1);
            assert(b.take(j + 1).drop_last() =~= b.take(j as int));
        }
        let ghost before = slots(map2);
        let ghost before_used = map2.used as int;
        match &map.buckets[j].key {
            SlotKey::Key(k) => {
                let ghost kv = k@;
                let v = map.buckets[j].val;
                proof {
                    lemma_count_used_bounds(before);
                }
                put_no_grow(&mut map2, k.as_slice(), v);
                proof {
                    lemma_reinserted_findable(b, j as int, cap2);
                    lemma_insert_slot_found(before, fnv(kv), kv);
                    assert forall|q: Seq<u8>| #[trigger] spec_get(slots(map2), q) == stored_value(
                        b,
                        j + 1,
                        q,
                    ) by {
                        if q == kv {
                            lemma_put_into_finds(before, before_used, kv, v);
                        } else {
                            lemma_put_into_keeps_others(before, before_used, kv, v, q);
                        }
                    }
                }
            },
            _ => {},
        }
        j += 1;
    }
    assert(b.len() == old(map).buckets@.len());
    *map = map2;
}

proof fn lemma_count_keys_prefix(b: Seq<EntryV>, n: int)
    requires
        0 < n <= b.len(),
    ensures
        count_keys(b.take(n)) == count_keys(b.take(n - 1)) + if is_key(b[n - 1]) {
            1int
        } else {
            0int
        },
        count_keys(b.take(n)) <= count_keys(b),
    decreases b.len() - n,
{
    assert(b.take(n).drop_last() =~= b.take(n - 1));
    if n < b.len() {
        lemma_count_keys_prefix(b, n + 1);
    } else {
        assert(b.take(n) =~= b);
    }
}

// ---------------------------------------------------------------------------
// Storing and deleting

/// Whether storing one more key makes the table grow first: it is 70%
/// used or more.
pub open spec fn grows(m: HashMap) -> bool {
    m.capacity > 0 && (m.used as int * 100) / (m.capacity as int) >= HIGH_WATERMARK as int
}

/// The buckets, count and capacity that a key is stored into: a fresh table
/// of 16 buckets for an empty one, the grown table, or the table itself.
pub open spec fn prepared(m: HashMap) -> (Seq<EntryV>, int, int) {
    if m.capacity == 0 {
        (fresh(INIT_SIZE as int), 0, INIT_SIZE as int)
    } else if grows(m) {
        rehashed(slots(m), m.capacity as int)
    } else {
        (slots(m), m.used as int, m.capacity as int)
    }
}

/// The buckets, count and capacity after storing `val` under `key`.
pub open spec fn put_spec(m: HashMap, key: Seq<u8>, val: u64) -> (Seq<EntryV>, int, int) {
    let g = prepared(m);
    let t = put_into(g.0, g.1, key, val);
    (t.0, t.1, g.2)
}

// ---------------------------------------------------------------------------
// Tables built by storing keys only

/// The key a bucket holds (nothing if it holds none).
pub open spec fn key_of(e: EntryV) -> Seq<u8> {
    match e.key {
        SlotV::Key(k) => k,
        _ => Seq::empty(),
    }
}

/// Whether no bucket holds a tombstone.
pub open spec fn no_tombs(b: Seq<EntryV>) -> bool {
    forall|j: int| 0 <= j < b.len() ==> !is_tomb(#[trigger] b[j])
}

/// Whether the table is as storing keys makes it: no tombstones, and the
/// search for each key it holds ends at that key's own bucket.
pub open spec fn findable(b: Seq<EntryV>) -> bool {
    &&& no_tombs(b)
    &&& forall|p: int|
        0 <= p < b.len() && is_key(#[trigger] b[p]) ==> find_slot(b, fnv(key_of(b[p])), key_of(b[p]), 0) == Some(p)
}

/// Whether the search for each key the table holds ends at that key's own
/// bucket (tombstones allowed).
pub open spec fn keys_found(b: Seq<EntryV>) -> bool {
    forall|p: int|
        0 <= p < b.len() && is_key(#[trigger] b[p]) ==> find_slot(b, fnv(key_of(b[p])), key_of(b[p]), 0) == Some(p)
}

/// Whether storing `key` would put it into a tombstone while the key is in
/// the table further on: the one way a table comes to hold a key twice.
pub open spec fn reuses_tomb(b: Seq<EntryV>, key: Seq<u8>) -> bool {
    &&& exists|j: int| 0 <= j < b.len() && holds(#[trigger] b[j], key)
    &&& insert_slot(b, fnv(key), key, 0) matches Some(t) && 0 <= t < b.len() && is_tomb(b[t])
}

/// Whether storing `key` into table `m` would put it into a tombstone
/// while it is in the table further on (a table that grows first has no
/// tombstones left).
pub open spec fn put_reuses_tomb(m: HashMap, key: Seq<u8>) -> bool {
    !grows(m) && reuses_tomb(slots(m), key)
}

proof fn lemma_keys_found_once(b: Seq<EntryV>, key: Seq<u8>)
    requires
        keys_found(b),
    ensures
        at_most_once(b, key),
{
    assert forall|i: int, j: int|
        0 <= i < b.len() && 0 <= j < b.len() && holds(b[i], key) && holds(b[j], key) implies i == j by {
        assert(is_key(b[i]) && key_of(b[i]) == key);
        assert(is_key(b[j]) && key_of(b[j]) == key);
        assert(find_slot(b, fnv(key_of(b[i])), key_of(b[i]), 0) == Some(i));
        assert(find_slot(b, fnv(key_of(b[j])), key_of(b[j]), 0) == Some(j));
    }
}

proof fn lemma_findable_distinct(b: Seq<EntryV>)
    requires
        findable(b),
    ensures
        distinct_keys(b),
{
    assert forall|i: int, j: int|
        0 <= i < j < b.len() && is_key(b[i]) && is_key(b[j]) implies #[trigger] b[i].key != #[trigger] b[j].key by {
        if b[i].key == b[j].key {
            assert(key_of(b[i]) == key_of(b[j]));
            assert(find_slot(b, fnv(key_of(b[i])), key_of(b[i]), 0) == Some(i));
            assert(find_slot(b, fnv(key_of(b[j])), key_of(b[j]), 0) == Some(j));
        }
    }
}

/// Filling an empty bucket leaves every search that succeeded as it was.
proof fn lemma_find_frame(b: Seq<EntryV>, s: int, e: EntryV, h: u64, key: Seq<u8>, i: int, p: int)
    requires
        0 <= s < b.len(),
        is_empty(b[s]),
        find_slot(b, h, key, i) == Some(p),
    ensures
        find_slot(b.update(s, e), h, key, i) == Some(p),
    decreases b.len() - i,
{
    let b2 = b.update(s, e);
    if 0 <= i < b.len() {
        let idx = probe(h, i, b.len() as int);
        assert(b2.len() == b.len());
        if !holds(b[idx], key) && !is_empty(b[idx]) {
            lemma_find_frame(b, s, e, h, key, i + 1, p);
        }
    }
}

/// A key that is not found goes into the empty bucket where the search
/// stopped, and is then found there.
proof fn lemma_find_new(b: Seq<EntryV>, h: u64, key: Seq<u8>, val: u64, i: int, s: int)
    requires
        no_tombs(b),
        find_slot(b, h, key, i) is None,
        insert_slot(b, h, key, i) == Some(s),
    ensures
        0 <= s < b.len(),
        is_empty(b[s]),
        find_slot(b.update(s, EntryV { key: SlotV::Key(key), val }), h, key, i) == Some(s),
    decreases b.len() - i,
{
    let b2 = b.update(s, EntryV { key: SlotV::Key(key), val });
    if 0 <= i < b.len() {
        let idx = probe(h, i, b.len() as int);
        assert(!is_tomb(b[idx]));
        if holds(b[idx], key) || is_empty(b[idx]) {
        } else {
            lemma_find_new(b, h, key, val, i + 1, s);
            assert(idx != s);
            assert(b2[idx] == b[idx]);
        }
    }
}

/// Without tombstones, a key that is found goes into its own bucket.
proof fn lemma_insert_found(b: Seq<EntryV>, h: u64, key: Seq<u8>, i: int, p: int)
    requires
        no_tombs(b),
        find_slot(b, h, key, i) == Some(p),
    ensures
        insert_slot(b, h, key, i) == Some(p),
    decreases b.len() - i,
{
    if 0 <= i < b.len() {
        let idx = probe(h, i, b.len() as int);
        assert(!is_tomb(b[idx]));
        if !holds(b[idx], key) && !is_empty(b[idx]) {
            lemma_insert_found(b, h, key, i + 1, p);
        }
    }
}

/// A search only looks at what the buckets hold, not at the values.
proof fn lemma_find_same_keys(b: Seq<EntryV>, b2: Seq<EntryV>, h: u64, key: Seq<u8>, i: int)
    requires
        b.len() == b2.len(),
        forall|x: int| 0 <= x < b.len() ==> (#[trigger] b[x]).key == b2[x].key,
    ensures
        find_slot(b2, h, key, i) == find_slot(b, h, key, i),
    decreases b.len() - i,
{
    if 0 <= i < b.len() {
        let idx = probe(h, i, b.len() as int);
        assert(b[idx].key == b2[idx].key);
        lemma_find_same_keys(b, b2, h, key, i + 1);
    }
}

/// Storing a key keeps a table as storing keys makes it.
proof fn lemma_put_into_findable(b: Seq<EntryV>, used: int, key: Seq<u8>, val: u64)
    requires
        findable(b),
    ensures
        findable(put_into(b, used, key, val).0),
{
    let h = fnv(key);
    let e = EntryV { key: SlotV::Key(key), val };
    match insert_slot(b, h, key, 0) {
        Some(s) => {
            let b2 = b.update(s, e);
            assert(put_into(b, used, key, val).0 == b2);
            lemma_insert_slot_bounds(b, h, key, 0);
            match find_slot(b, h, key, 0) {
                Some(p) => {
                    lemma_insert_found(b, h, key, 0, p);
                    lemma_find_slot_bounds(b, h, key, 0);
                    assert(s == p);
                    assert forall|x: int| 0 <= x < b.len() implies (#[trigger] b[x]).key == b2[x].key by {}
                    assert forall|q: int| 0 <= q < b2.len() && is_key(#[trigger] b2[q]) implies find_slot(
                        b2,
                        fnv(key_of(b2[q])),
                        key_of(b2[q]),
                        0,
                    ) == Some(q) by {
                        assert(b2[q].key == b[q].key);
                        lemma_find_same_keys(b, b2, fnv(key_of(b2[q])), key_of(b2[q]), 0);
                    }
                },
                None => {
                    lemma_find_new(b, h, key, val, 0, s);
                    assert forall|q: int| 0 <= q < b2.len() && is_key(#[trigger] b2[q]) implies find_slot(
                        b2,
                        fnv(key_of(b2[q])),
                        key_of(b2[q]),
                        0,
                    ) == Some(q) by {
                        if q != s {
                            assert(b2[q] == b[q]);
                            lemma_find_frame(b, s, e, fnv(key_of(b[q])), key_of(b[q]), 0, q);
                        }
                    }
                },
            }
        },
        None => {},
    }
}

proof fn lemma_fresh_findable(cap: int)
    requires
        cap >= 0,
    ensures
        findable(fresh(cap)),
{
}

proof fn lemma_reinserted_findable(b: Seq<EntryV>, n: int, cap: int)
    requires
        cap >= 0,
    ensures
        findable(reinserted(b, n, cap).0),
    decreases n,
{
    if n > 0 {
        lemma_reinserted_findable(b, n - 1, cap);
        let t = reinserted(b, n - 1, cap);
        match b[n - 1].key {
            SlotV::Key(k) => lemma_put_into_findable(t.0, t.1, k, b[n - 1].val),
            _ => {},
        }
    } else {
        lemma_fresh_findable(cap);
    }
}

/// A table that only ever had keys stored into it stays so when one more
/// is stored (growing first if it must), and so never holds a key twice:
/// its search for each key ends at the key's own bucket, and it has no
/// tombstones.
pub proof fn law_storing_keeps_keys_distinct(m: HashMap, key: Seq<u8>, val: u64)
    requires
        wf(m),
        findable(slots(m)),
    ensures
        findable(put_spec(m, key, val).0),
        distinct_keys(put_spec(m, key, val).0),
        distinct_keys(slots(m)),
{
    lemma_findable_distinct(slots(m));
    let g = prepared(m);
    assert(findable(g.0)) by {
        if m.capacity == 0 {
            lemma_fresh_findable(INIT_SIZE as int);
        }
        if m.capacity != 0 && grows(m) {
            let cap2 = grow_cap(count_keys(slots(m)), m.capacity as int);
            assert(cap2 >= 0) by {
                lemma_grow_cap_pos(count_keys(slots(m)), m.capacity as int);
            }
            lemma_reinserted_findable(slots(m), slots(m).len() as int, cap2);
        }
    }
    lemma_put_into_findable(g.0, g.1, key, val);
    lemma_findable_distinct(put_spec(m, key, val).0);
}

proof fn lemma_grow_cap_pos(n: int, cap: int)
    requires
        cap > 0,
    ensures
        grow_cap(n, cap) > 0,
    decreases 4 * n + 2 - cap,
{
    if !(cap <= 0 || n < 0 || (n * 100) / cap < 50) {
        lemma_grow_step(n, cap);
        lemma_grow_cap_pos(n, cap * 2);
    }
}

/// Whether the table can take one more key: its count leaves room for the
/// arithmetic on it, and it holds no key twice when it is about to grow
/// (growing such a table is refused).
pub open spec fn can_put(m: HashMap) -> bool {
    &&& wf(m)
    &&& m.used <= i32::MAX / 100
    &&& grows(m) ==> distinct_keys(slots(m))
}

proof fn lemma_put_into_finds(b: Seq<EntryV>, used: int, key: Seq<u8>, val: u64)
    requires
        insert_slot(b, fnv(key), key, 0) is Some,
    ensures
        spec_get(put_into(b, used, key, val).0, key) == val,
{
    let h = fnv(key);
    let p = insert_slot(b, h, key, 0)->0;
    lemma_insert_slot_bounds(b, h, key, 0);
    let b2 = b.update(p, EntryV { key: SlotV::Key(key), val });
    lemma_find_after_insert(b, h, key, val, 0, p);
}

proof fn lemma_find_after_insert(b: Seq<EntryV>, h: u64, key: Seq<u8>, val: u64, i: int, p: int)
    requires
        0 <= i,
        insert_slot(b, h, key, i) == Some(p),
        0 <= p < b.len(),
    ensures
        find_slot(b.update(p, EntryV { key: SlotV::Key(key), val }), h, key, i) == Some(p),
    decreases b.len() - i,
{
    let b2 = b.update(p, EntryV { key: SlotV::Key(key), val });
    if 0 <= i < b.len() {
        let idx = probe(h, i, b.len() as int);
        assert(0 <= idx < b.len());
        if holds(b[idx], key) || is_tomb(b[idx]) || is_empty(b[idx]) {
            assert(idx == p);
        } else {
            assert(idx != p) by {
                lemma_insert_slot_bounds(b, h, key, i + 1);
            }
            lemma_find_after_insert(b, h, key, val, i + 1, p);
        }
    }
}

/// Stores `val` under `key`. A table that is empty gets 16 buckets first,
/// and one that is 70% used or more grows first. The value stored is then
/// the one the key finds.
pub fn hashmap_put_bytes(map: &mut HashMap, key: &[u8], val: u64)
    requires
        can_put(*old(map)),
    ensures
        wf(*final(map)),
        (slots(*final(map)), final(map).used as int, final(map).capacity as int) == put_spec(
            *old(map),
            key@,
            val,
        ),
        final(map).capacity > 0,
        spec_get(slots(*final(map)), key@) == val,
        keys_found(slots(*old(map))) && !put_reuses_tomb(*old(map), key@) ==> keys_found(
            slots(*final(map)),
        ) && forall|other: Seq<u8>|
            other != key@ ==> #[trigger] spec_get(slots(*final(map)), other) == if old(map).capacity
                == 0 {
                0
            } else {
                spec_get(slots(*old(map)), other)
            },
{
    proof {
        lemma_count_used_bounds(slots(*map));
    }
    if map.buckets.len() == 0 {
        proof {
            lemma_fresh_count(INIT_SIZE as int);
            reveal_with_fuel(pow_two, 5);
            assert(pow_two(4) == 16);
        }
        map.buckets = fresh_buckets(INIT_SIZE);
        map.capacity = INIT_SIZE;
        map.used = 0;
    } else if (map.used * 100) / map.capacity >= HIGH_WATERMARK {
        rehash(map);
    } else {
        proof {
            let x = map.used as int * 100;
            let c = map.capacity as int;
            assert(x < 70 * c) by (nonlinear_arith)
                requires
                    x / c < 70,
                    c > 0,
                    x >= 0,
            ;
        }
    }
    proof {
        let k = choose|k: nat| 4 <= k <= 30 && #[trigger] pow_two(k) == map.capacity;
        lemma_pow_two_mono(4, k);
        reveal_with_fuel(pow_two, 5);
        lemma_count_used_bounds(slots(*map));
    }
    let ghost g = slots(*map);
    let ghost gu = map.used as int;
    put_no_grow(map, key, val);
    proof {
        lemma_insert_slot_found(g, fnv(key@), key@);
        lemma_put_into_finds(g, gu, key@, val);
        let ob = slots(*old(map));
        if keys_found(ob) && !put_reuses_tomb(*old(map), key@) {
            if old(map).capacity == 0 {
                lemma_fresh_findable(INIT_SIZE as int);
            } else if grows(*old(map)) {
                lemma_reinserted_findable(ob, ob.len() as int, g.len() as int);
            }
            assert(keys_found(g));
            if old(map).capacity == 0 || grows(*old(map)) {
                assert(no_tombs(g));
                lemma_insert_slot_bounds(g, fnv(key@), key@, 0);
            }
            assert(!reuses_tomb(g, key@));
            lemma_put_into_keys_found(g, gu, key@, val);
            assert forall|other: Seq<u8>| other != key@ implies #[trigger] spec_get(
                slots(*map),
                other,
            ) == if old(map).capacity == 0 {
                0
            } else {
                spec_get(ob, other)
            } by {
                lemma_put_into_keeps_others(g, gu, key@, val, other);
                if old(map).capacity == 0 {
                    lemma_nothing_found(g, fnv(other), other);
                } else if grows(*old(map)) {
                    lemma_findable_get(ob, other);
                }
            }
        }
    }
}

proof fn lemma_insert_slot_found(b: Seq<EntryV>, h: u64, key: Seq<u8>)
    requires
        cap_ok(b.len() as int),
        exists|j: int| 0 <= j < b.len() && is_empty(#[trigger] b[j]),
    ensures
        insert_slot(b, h, key, 0) is Some,
{
    let j = choose|j: int| 0 <= j < b.len() && is_empty(#[trigger] b[j]);
    let i = lemma_probe_reaches(h, b.len() as int, j);
    lemma_insert_slot_reaches(b, h, key, 0, i);
}

proof fn lemma_insert_slot_reaches(b: Seq<EntryV>, h: u64, key: Seq<u8>, i: int, i2: int)
    requires
        0 <= i <= i2 < b.len(),
        is_empty(b[probe(h, i2, b.len() as int)]),
    ensures
        insert_slot(b, h, key, i) is Some,
    decreases i2 - i,
{
    if i < i2 {
        let idx = probe(h, i, b.len() as int);
        if !(holds(b[idx], key) || is_tomb(b[idx]) || is_empty(b[idx])) {
            lemma_insert_slot_reaches(b, h, key, i + 1, i2);
        }
    }
}

/// Stores `val` under the bytes of `key`.
pub fn hashmap_put(map: &mut HashMap, key: &str, val: u64)
    requires
        can_put(*old(map)),
    ensures
        wf(*final(map)),
        (slots(*final(map)), final(map).used as int, final(map).capacity as int) == put_spec(
            *old(map),
            key.spec_bytes(),
            val,
        ),
        final(map).capacity > 0,
        spec_get(slots(*final(map)), key.spec_bytes()) == val,
        keys_found(slots(*old(map))) && !put_reuses_tomb(*old(map), key.spec_bytes()) ==> keys_found(
            slots(*final(map)),
        ) && forall|other: Seq<u8>|
            other != key.spec_bytes() ==> #[trigger] spec_get(slots(*final(map)), other) == if old(
                map,
            ).capacity == 0 {
                0
            } else {
                spec_get(slots(*old(map)), other)
            },
{
    hashmap_put_bytes(map, key.as_bytes(), val);
}

/// In a table built by storing keys only, each key is in one bucket at
/// most.
pub proof fn law_stored_keys_once(b: Seq<EntryV>, key: Seq<u8>)
    requires
        findable(b),
    ensures
        at_most_once(b, key),
{
    lemma_findable_distinct(b);
    assert forall|i: int, j: int|
        0 <= i < b.len() && 0 <= j < b.len() && holds(b[i], key) && holds(b[j], key) implies i == j by {
        if i < j {
            assert(b[i].key == b[j].key);
        } else if j < i {
            assert(b[j].key == b[i].key);
        }
    }
}

/// Replacing a bucket that neither holds `key` nor is empty by another such
/// bucket leaves the search for `key` as it was.
proof fn lemma_find_same_after_update(b: Seq<EntryV>, s: int, e: EntryV, h: u64, key: Seq<u8>, i: int)
    requires
        0 <= s < b.len(),
        !holds(b[s], key),
        !holds(e, key),
        !is_empty(b[s]),
        !is_empty(e),
    ensures
        find_slot(b.update(s, e), h, key, i) == find_slot(b, h, key, i),
    decreases b.len() - i,
{
    let b2 = b.update(s, e);
    if 0 <= i < b.len() {
        let idx = probe(h, i, b.len() as int);
        if idx != s {
            assert(b2[idx] == b[idx]);
        }
        lemma_find_same_after_update(b, s, e, h, key, i + 1);
    }
}

/// The value found for `other` is the same in two bucket sequences that
/// differ in one bucket which neither holds `other` nor is empty.
proof fn lemma_get_same_after_update(b: Seq<EntryV>, s: int, e: EntryV, other: Seq<u8>)
    requires
        0 <= s < b.len(),
        !holds(b[s], other),
        !holds(e, other),
        !is_empty(b[s]),
        !is_empty(e),
    ensures
        spec_get(b.update(s, e), other) == spec_get(b, other),
{
    lemma_find_same_after_update(b, s, e, fnv(other), other, 0);
    lemma_find_slot_bounds(b, fnv(other), other, 0);
}

/// Deleting a key leaves the value found for every other key as it was.
pub proof fn law_delete_keeps_other_keys(b: Seq<EntryV>, key: Seq<u8>, other: Seq<u8>)
    requires
        other != key,
    ensures
        spec_get(delete_spec(b, key), other) == spec_get(b, other),
{
    lemma_find_slot_bounds(b, fnv(key), key, 0);
    if let Some(p) = find_slot(b, fnv(key), key, 0) {
        lemma_get_same_after_update(b, p, EntryV { key: SlotV::Tombstone, val: b[p].val }, other);
    }
}

/// Storing a key without growing, into a table built by storing keys only,
/// leaves the value found for every other key as it was.
proof fn lemma_put_into_keeps_others(b: Seq<EntryV>, used: int, key: Seq<u8>, val: u64, other: Seq<u8>)
    requires
        keys_found(b),
        other != key,
    ensures
        spec_get(put_into(b, used, key, val).0, other) == spec_get(b, other),
{
    let h = fnv(key);
    lemma_insert_slot_bounds(b, h, key, 0);
    match insert_slot(b, h, key, 0) {
        Some(p) => {
            let e = EntryV { key: SlotV::Key(key), val };
            let b2 = b.update(p, e);
            if !is_empty(b[p]) {
                lemma_get_same_after_update(b, p, e, other);
            } else {
                let ho = fnv(other);
                lemma_find_slot_bounds(b, ho, other, 0);
                match find_slot(b, ho, other, 0) {
                    Some(q) => {
                        lemma_find_frame(b, p, e, ho, other, 0, q);
                    },
                    None => {
                        if exists|j: int| 0 <= j < b.len() && holds(#[trigger] b[j], other) {
                            let j = choose|j: int| 0 <= j < b.len() && holds(#[trigger] b[j], other);
                            assert(is_key(b[j]));
                            assert(key_of(b[j]) == other);
                            assert(find_slot(b, fnv(key_of(b[j])), key_of(b[j]), 0) == Some(j));
                        }
                        assert forall|j: int| 0 <= j < b2.len() implies !holds(#[trigger] b2[j], other) by {
                            if j != p {
                                assert(b2[j] == b[j]);
                            }
                        }
                        lemma_nothing_found(b2, ho, other);
                    },
                }
            }
        },
        None => {},
    }
}

/// When a key goes into an empty bucket, its search finds nothing.
proof fn lemma_insert_empty_not_found(b: Seq<EntryV>, h: u64, key: Seq<u8>, i: int, t: int)
    requires
        0 <= i,
        insert_slot(b, h, key, i) == Some(t),
        0 <= t < b.len(),
        is_empty(b[t]),
    ensures
        find_slot(b, h, key, i).is_none(),
    decreases b.len() - i,
{
    if 0 <= i < b.len() {
        let idx = probe(h, i, b.len() as int);
        if !(holds(b[idx], key) || is_tomb(b[idx]) || is_empty(b[idx])) {
            lemma_insert_empty_not_found(b, h, key, i + 1, t);
        }
    }
}

/// Storing a key without growing keeps every key found at its own bucket,
/// unless the key goes into a tombstone while it is in the table further
/// on.
proof fn lemma_put_into_keys_found(b: Seq<EntryV>, used: int, key: Seq<u8>, val: u64)
    requires
        keys_found(b),
        !reuses_tomb(b, key),
    ensures
        keys_found(put_into(b, used, key, val).0),
{
    let h = fnv(key);
    lemma_insert_slot_bounds(b, h, key, 0);
    lemma_keys_found_once(b, key);
    if let Some(t) = insert_slot(b, h, key, 0) {
        let e = EntryV { key: SlotV::Key(key), val };
        let b2 = b.update(t, e);
        assert forall|q: int|
            0 <= q < b2.len() && is_key(#[trigger] b2[q]) implies find_slot(
            b2,
            fnv(key_of(b2[q])),
            key_of(b2[q]),
            0,
        ) == Some(q) by {
            if q == t {
                lemma_find_after_insert(b, h, key, val, 0, t);
            } else {
                let kq = key_of(b[q]);
                assert(b2[q] == b[q]);
                assert(find_slot(b, fnv(kq), kq, 0) == Some(q));
                if kq == key {
                    assert(holds(b[q], key));
                    if is_empty(b[t]) {
                        lemma_insert_empty_not_found(b, h, key, 0, t);
                    }
                }
                if is_empty(b[t]) {
                    lemma_find_frame(b, t, e, fnv(kq), kq, 0, q);
                } else {
                    lemma_find_same_after_update(b, t, e, fnv(kq), kq, 0);
                }
            }
        }
    }
}

/// Deleting a key keeps every other key found at its own bucket.
proof fn lemma_delete_keys_found(b: Seq<EntryV>, key: Seq<u8>)
    requires
        keys_found(b),
    ensures
        keys_found(delete_spec(b, key)),
{
    lemma_find_slot_bounds(b, fnv(key), key, 0);
    lemma_keys_found_once(b, key);
    if let Some(p) = find_slot(b, fnv(key), key, 0) {
        let e = EntryV { key: SlotV::Tombstone, val: b[p].val };
        let b2 = b.update(p, e);
        assert forall|q: int|
            0 <= q < b2.len() && is_key(#[trigger] b2[q]) implies find_slot(
            b2,
            fnv(key_of(b2[q])),
            key_of(b2[q]),
            0,
        ) == Some(q) by {
            let kq = key_of(b[q]);
            assert(b2[q] == b[q]);
            assert(find_slot(b, fnv(kq), kq, 0) == Some(q));
            lemma_find_same_after_update(b, p, e, fnv(kq), kq, 0);
        }
    }
}

/// The value stored last, among the first `n` buckets, under `key`, or 0
/// when none of them holds it.
pub open spec fn stored_value(b: Seq<EntryV>, n: int, key: Seq<u8>) -> u64
    decreases n,
{
    if n <= 0 {
        0
    } else if holds(b[n - 1], key) {
        b[n - 1].val
    } else {
        stored_value(b, n - 1, key)
    }
}

proof fn lemma_stored_value_unique(b: Seq<EntryV>, n: int, key: Seq<u8>)
    requires
        0 <= n <= b.len(),
        at_most_once(b, key),
    ensures
        (exists|j: int| 0 <= j < n && holds(#[trigger] b[j], key)) ==> stored_value(b, n, key)
            == b[choose|j: int| 0 <= j < n && holds(#[trigger] b[j], key)].val,
        !(exists|j: int| 0 <= j < n && holds(#[trigger] b[j], key)) ==> stored_value(b, n, key) == 0,
    decreases n,
{
    if n > 0 {
        lemma_stored_value_unique(b, n - 1, key);
        if holds(b[n - 1], key) {
            let j = choose|j: int| 0 <= j < n && holds(#[trigger] b[j], key);
            assert(j == n - 1);
        } else if exists|j: int| 0 <= j < n && holds(#[trigger] b[j], key) {
            let j = choose|j: int| 0 <= j < n && holds(#[trigger] b[j], key);
            assert(0 <= j < n - 1 && holds(b[j], key));
            let j2 = choose|j: int| 0 <= j < n - 1 && holds(#[trigger] b[j], key);
            assert(j == j2);
        }
    }
}

/// In a table built by storing keys only, the value found for a key is the
/// one its bucket holds.
proof fn lemma_findable_get(b: Seq<EntryV>, key: Seq<u8>)
    requires
        keys_found(b),
    ensures
        spec_get(b, key) == stored_value(b, b.len() as int, key),
{
    lemma_keys_found_once(b, key);
    lemma_stored_value_unique(b, b.len() as int, key);
    if exists|j: int| 0 <= j < b.len() && holds(#[trigger] b[j], key) {
        let j = choose|j: int| 0 <= j < b.len() && holds(#[trigger] b[j], key);
        assert(is_key(b[j]) && key_of(b[j]) == key);
        assert(find_slot(b, fnv(key_of(b[j])), key_of(b[j]), 0) == Some(j));
    } else {
        lemma_nothing_found(b, fnv(key), key);
    }
}

/// Storing a key into a table built by storing keys only, when the table
/// does not grow, leaves the value found for every other key as it was (an
/// empty table finds nothing).
pub proof fn law_put_keeps_other_keys(m: HashMap, key: Seq<u8>, val: u64, other: Seq<u8>)
    requires
        wf(m),
        findable(slots(m)),
        !grows(m),
        other != key,
    ensures
        spec_get(put_spec(m, key, val).0, other) == if m.capacity == 0 {
            0
        } else {
            spec_get(slots(m), other)
        },
{
    let g = prepared(m);
    let b = g.0;
    let h = fnv(key);
    if m.capacity == 0 {
        lemma_fresh_findable(INIT_SIZE as int);
    }
    assert(findable(b));
    lemma_insert_slot_bounds(b, h, key, 0);
    match insert_slot(b, h, key, 0) {
        Some(p) => {
            let e = EntryV { key: SlotV::Key(key), val };
            let b2 = b.update(p, e);
            assert(put_spec(m, key, val).0 == b2);
            if !is_empty(b[p]) {
                lemma_get_same_after_update(b, p, e, other);
            } else {
                let ho = fnv(other);
                lemma_find_slot_bounds(b, ho, other, 0);
                match find_slot(b, ho, other, 0) {
                    Some(q) => {
                        lemma_find_frame(b, p, e, ho, other, 0, q);
                        assert(q != p);
                    },
                    None => {
                        if exists|j: int| 0 <= j < b.len() && holds(#[trigger] b[j], other) {
                            let j = choose|j: int| 0 <= j < b.len() && holds(#[trigger] b[j], other);
                            assert(is_key(b[j]));
                            assert(key_of(b[j]) == other);
                            assert(find_slot(b, fnv(key_of(b[j])), key_of(b[j]), 0) == Some(j));
                        }
                        assert forall|j: int| 0 <= j < b2.len() implies !holds(#[trigger] b2[j], other) by {
                            if j != p {
                                assert(b2[j] == b[j]);
                            }
                        }
                        lemma_nothing_found(b2, ho, other);
                        if m.capacity == 0 {
                            assert forall|j: int| 0 <= j < b.len() implies !holds(#[trigger] b[j], other) by {}
                        }
                    },
                }
            }
        },
        None => {},
    }
}

/// What `hashmap_get_bytes` gives for `key` on table `m`.
pub open spec fn map_value(m: HashMap, key: Seq<u8>) -> u64 {
    if m.capacity == 0 {
        0
    } else {
        spec_get(slots(m), key)
    }
}

/// A store or a deletion.
pub enum MapOp {
    Put(Seq<u8>, u64),
    Delete(Seq<u8>),
}

/// The value that the first `n` operations leave under `key`: that of its
/// last store, or 0 when it was never stored or its last operation was a
/// deletion.
pub open spec fn last_value(ops: Seq<MapOp>, n: int, key: Seq<u8>) -> u64
    decreases n,
{
    if n <= 0 {
        0
    } else {
        match ops[n - 1] {
            MapOp::Put(k, v) => if k == key {
                v
            } else {
                last_value(ops, n - 1, key)
            },
            MapOp::Delete(k) => if k == key {
                0
            } else {
                last_value(ops, n - 1, key)
            },
        }
    }
}

/// Whether table `m2` is what `hashmap_put_bytes` or `hashmap_delete_bytes`
/// makes of `m` for the operation `op`, as their contracts state.
pub open spec fn op_step(m: HashMap, op: MapOp, m2: HashMap) -> bool {
    &&& wf(m2)
    &&& match op {
        MapOp::Put(k, v) => {
            &&& m2.capacity > 0
            &&& spec_get(slots(m2), k) == v
            &&& keys_found(slots(m)) && !put_reuses_tomb(m, k) ==> keys_found(slots(m2))
                && forall|other: Seq<u8>|
                other != k ==> #[trigger] spec_get(slots(m2), other) == map_value(m, other)
        },
        MapOp::Delete(k) => {
            &&& forall|other: Seq<u8>| other != k ==> #[trigger] map_value(m2, other) == map_value(m, other)
            &&& keys_found(slots(m)) ==> keys_found(slots(m2)) && map_value(m2, k) == 0
        },
    }
}

/// Whether storing with `op` into `m` would put its key into a tombstone
/// while the key is in the table further on.
pub open spec fn op_reuses_tomb(m: HashMap, op: MapOp) -> bool {
    match op {
        MapOp::Put(k, _) => put_reuses_tomb(m, k),
        MapOp::Delete(_) => false,
    }
}

/// Stores and deletions: over any sequence of them from an empty table, a
/// lookup gives the value stored last under the key, or 0 when the key was
/// never stored or was deleted after its last store, provided no store
/// puts its key into a tombstone while the key is further on in the table
/// (such a store leaves the key in two buckets, and a later deletion then
/// uncovers the older value).
pub proof fn law_get_after_operations(ms: Seq<HashMap>, ops: Seq<MapOp>, key: Seq<u8>)
    requires
        ms.len() == ops.len() + 1,
        wf(ms[0]),
        ms[0].capacity == 0,
        forall|i: int| 0 <= i < ops.len() ==> #[trigger] op_step(ms[i], ops[i], ms[i + 1]),
        forall|i: int| 0 <= i < ops.len() ==> !op_reuses_tomb(ms[i], #[trigger] ops[i]),
    ensures
        map_value(ms.last(), key) == last_value(ops, ops.len() as int, key),
        keys_found(slots(ms.last())),
    decreases ops.len(),
{
    let n = ops.len() as int;
    if n == 0 {
        assert(slots(ms[0]).len() == 0);
    } else {
        let ms0 = ms.drop_last();
        let ops0 = ops.drop_last();
        assert forall|i: int| 0 <= i < ops0.len() implies #[trigger] op_step(ms0[i], ops0[i], ms0[i + 1]) by {
            assert(op_step(ms[i], ops[i], ms[i + 1]));
        }
        assert forall|i: int| 0 <= i < ops0.len() implies !op_reuses_tomb(ms0[i], #[trigger] ops0[i]) by {
            assert(!op_reuses_tomb(ms[i], ops[i]));
        }
        law_get_after_operations(ms0, ops0, key);
        assert(ms0.last() == ms[n - 1]);
        assert(op_step(ms[n - 1], ops[n - 1], ms[(n - 1) + 1]));
        assert(!op_reuses_tomb(ms[n - 1], ops[n - 1]));
        assert(last_value(ops0, n - 1, key) == last_value(ops, n - 1, key)) by {
            lemma_last_value_prefix(ops, n - 1, key);
        }
        match ops[n - 1] {
            MapOp::Put(k, v) => {
                if k != key {
                    assert(spec_get(slots(ms[n]), key) == map_value(ms[n - 1], key));
                }
            },
            MapOp::Delete(k) => {
                if k != key {
                    assert(map_value(ms[n], key) == map_value(ms[n - 1], key));
                }
            },
        }
    }
}

proof fn lemma_last_value_prefix(ops: Seq<MapOp>, n: int, key: Seq<u8>)
    requires
        0 <= n < ops.len(),
    ensures
        last_value(ops.drop_last(), n, key) == last_value(ops, n, key),
    decreases n,
{
    if n > 0 {
        lemma_last_value_prefix(ops, n - 1, key);
    }
}

// ---------------------------------------------------------------------------
// Keyword tables

/// `put_spec` on the buckets, count and capacity of a table.
pub open spec fn put_state(st: (Seq<EntryV>, int, int), key: Seq<u8>, val: u64) -> (Seq<EntryV>, int, int) {
    let (b, used, cap) = st;
    let g = if cap == 0 {
        (fresh(INIT_SIZE as int), 0, INIT_SIZE as int)
    } else if (used * 100) / cap >= HIGH_WATERMARK as int {
        rehashed(b, cap)
    } else {
        (b, used, cap)
    };
    let t = put_into(g.0, g.1, key, val);
    (t.0, t.1, g.2)
}

/// The buckets, count and capacity of an empty table after the first `n`
/// keys of `keys` are stored in it, each with value `val`.
pub open spec fn stored_all(keys: Seq<Seq<u8>>, val: u64, n: int) -> (Seq<EntryV>, int, int)
    decreases n,
{
    if n <= 0 {
        (Seq::empty(), 0, 0)
    } else {
        put_state(stored_all(keys, val, n - 1), keys[n - 1], val)
    }
}

proof fn lemma_reinserted_count(b: Seq<EntryV>, n: int, cap: int)
    requires
        0 <= n <= b.len(),
    ensures
        0 <= reinserted(b, n, cap).1 <= count_keys(b.take(n)),
    decreases n,
{
    if n > 0 {
        lemma_reinserted_count(b, n - 1, cap);
        lemma_count_keys_prefix(b, n);
    } else {
        assert(b.take(0) =~= Seq::<EntryV>::empty());
    }
}

/// Stores each keyword in an empty table, with a value that is not null,
/// so that the table tells keywords from other names; a table that has
/// buckets already is left as it is.
#[verifier::rlimit(40)]
pub fn populate_keywords(map: &mut HashMap, keywords: &[&str])
    requires
        wf(*old(map)),
        keywords@.len() <= i32::MAX / 100,
    ensures
        wf(*final(map)),
        old(map).capacity != 0 ==> *final(map) == *old(map),
        old(map).capacity == 0 ==> (slots(*final(map)), final(map).used as int, final(map).capacity as int)
            == stored_all(keywords@.map_values(|k: &str| k.spec_bytes()), 1, keywords@.len() as int),
        old(map).capacity == 0 ==> findable(slots(*final(map))),
{
    if map.capacity != 0 {
        return;
    }
    let ghost kws = keywords@.map_values(|k: &str| k.spec_bytes());
    assert(slots(*map) =~= Seq::<EntryV>::empty());
    let mut k: usize = 0;
    while k < keywords.len()
        invariant
            kws == keywords@.map_values(|k: &str| k.spec_bytes()),
            keywords@.len() <= i32::MAX / 100,
            k <= keywords@.len(),
            wf(*map),
            findable(slots(*map)),
            0 <= map.used <= k,
            (slots(*map), map.used as int, map.capacity as int) == stored_all(kws, 1, k as int),
        decreases keywords.len() - k,
    {
        let ghost m0 = *map;
        proof {
            lemma_findable_distinct(slots(m0));
            law_storing_keeps_keys_distinct(m0, kws[k as int], 1);
            if m0.capacity != 0 && grows(m0) {
                lemma_count_keys_le_used(slots(m0));
                lemma_reinserted_count(slots(m0), slots(m0).len() as int, grow_cap(count_keys(slots(m0)), m0.capacity as int));
                assert(slots(m0).take(slots(m0).len() as int) =~= slots(m0));
            }
            lemma_insert_slot_bounds(prepared(m0).0, fnv(kws[k as int]), kws[k as int], 0);
        }
        assert(keywords@[k as int].spec_bytes() == kws[k as int]);
        hashmap_put(map, keywords[k], 1);
        assert(stored_all(kws, 1, k + 1) == put_state(stored_all(kws, 1, k as int), kws[k as int], 1));
        k += 1;
    }
}

/// Whether a key is in one bucket at most.
pub open spec fn at_most_once(b: Seq<EntryV>, key: Seq<u8>) -> bool {
    forall|i: int, j: int| 0 <= i < b.len() && 0 <= j < b.len() && holds(b[i], key) && holds(b[j], key) ==> i == j
}

/// The buckets after deleting `key`: the bucket the search finds becomes a
/// tombstone; its value stays behind.
pub open spec fn delete_spec(b: Seq<EntryV>, key: Seq<u8>) -> Seq<EntryV> {
    match find_slot(b, fnv(key), key, 0) {
        Some(p) => b.update(p, EntryV { key: SlotV::Tombstone, val: b[p].val }),
        None => b,
    }
}

proof fn lemma_nothing_found(b: Seq<EntryV>, h: u64, key: Seq<u8>)
    requires
        forall|j: int| 0 <= j < b.len() ==> !holds(#[trigger] b[j], key),
    ensures
        find_slot(b, h, key, 0).is_none(),
{
    lemma_find_slot_bounds(b, h, key, 0);
}

/// Deletes `key`: the bucket that holds it becomes a tombstone. When the
/// key was in one bucket at most, it is then not found.
pub fn hashmap_delete_bytes(map: &mut HashMap, key: &[u8])
    requires
        wf(*old(map)),
    ensures
        wf(*final(map)),
        final(map).capacity == old(map).capacity,
        final(map).used == old(map).used,
        old(map).capacity > 0 ==> slots(*final(map)) == delete_spec(slots(*old(map)), key@),
        old(map).capacity == 0 ==> slots(*final(map)) == slots(*old(map)),
        at_most_once(slots(*old(map)), key@) ==> final(map).capacity == 0 || spec_get(
            slots(*final(map)),
            key@,
        ) == 0,
        keys_found(slots(*old(map))) ==> keys_found(slots(*final(map))) && map_value(*final(map), key@)
            == 0,
        forall|other: Seq<u8>|
            other != key@ ==> #[trigger] map_value(*final(map), other) == map_value(*old(map), other),
{
    let ghost b = slots(*map);
    proof {
        if keys_found(b) {
            lemma_keys_found_once(b, key@);
            if map.capacity > 0 {
                lemma_delete_keys_found(b, key@);
            }
        }
        assert forall|other: Seq<u8>| other != key@ implies map_value(*old(map), other) == if old(map).capacity == 0 {
            0
        } else {
            spec_get(delete_spec(b, key@), other)
        } by {
            law_delete_keeps_other_keys(b, key@, other);
        }
    }
    match get_entry(map, key) {
        Some(idx) => {
            let v = map.buckets[idx].val;
            let ghost e = EntryV { key: SlotV::Tombstone, val: v };
            map.buckets.set(idx, HashEntry { key: SlotKey::Tombstone, val: v });
            proof {
                assert(slots(*map) =~= b.update(idx as int, e));
                lemma_count_used_update(b, idx as int, e);
                lemma_find_slot_bounds(b, fnv(key@), key@, 0);
                if at_most_once(b, key@) {
                    assert forall|j: int| 0 <= j < slots(*map).len() implies !holds(
                        #[trigger] slots(*map)[j],
                        key@,
                    ) by {
                        if j != idx && holds(slots(*map)[j], key@) {
                            assert(holds(b[j], key@));
                        }
                    }
                    lemma_nothing_found(slots(*map), fnv(key@), key@);
                }
            }
        },
        None => {
            proof {
                if map.capacity > 0 {
                    assert(delete_spec(b, key@) == b);
                }
            }
        },
    }
}

/// Deletes the bytes of `key`.
pub fn hashmap_delete(map: &mut HashMap, key: &str)
    requires
        wf(*old(map)),
    ensures
        wf(*final(map)),
        final(map).capacity == old(map).capacity,
        old(map).capacity > 0 ==> slots(*final(map)) == delete_spec(
            slots(*old(map)),
            key.spec_bytes(),
        ),
        old(map).capacity == 0 ==> slots(*final(map)) == slots(*old(map)),
        keys_found(slots(*old(map))) ==> keys_found(slots(*final(map))) && map_value(
            *final(map),
            key.spec_bytes(),
        ) == 0,
        forall|other: Seq<u8>|
            other != key.spec_bytes() ==> #[trigger] map_value(*final(map), other) == map_value(
                *old(map),
                other,
            ),
{
    hashmap_delete_bytes(map, key.as_bytes());
}

/// The value stored for the bytes of `key`, or 0.
pub fn hashmap_get(map: &HashMap, key: &str) -> (r: u64)
    requires
        wf(*map),
    ensures
        r == if map.capacity == 0 {
            0
        } else {
            spec_get(slots(*map), key.spec_bytes())
        },
{
    hashmap_get_bytes(map, key.as_bytes())
}

} // verus!
