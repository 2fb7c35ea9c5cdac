//! An open-addressed hash table with linear probing and tombstones, mapping
//! interned-string keys to values.
//!
//! Buckets are `Empty`, `Tombstone`, or `Data`. Lookup starts at the key's
//! hash modulo the capacity and scans with wrap-around; a run of non-empty
//! buckets therefore always connects a stored key to its home slot. Deletion
//! leaves a tombstone so that probe chains stay intact; tombstones count
//! against the load factor (`len` is never decremented by `delete`) and are
//! dropped only when the table grows and rehashes.
//!
//! The view of a table is the map from key contents to values; `set`, `get`,
//! `find` and `delete` behave exactly like `Map::insert`, lookup and
//! `Map::remove` on that view.

use crate::gc::{spec_hash_string, ObjString};
use vstd::prelude::*;

verus! {

enum Entry<T> {
    Empty,
    Tombstone,
    Data { key: ObjString, value: T },
}

/// The kind of bucket a probe stopped at.
enum ProbeKind {
    KeyMatch,
    EmptyBucket,
    TombstoneBucket,
}

pub struct Table<T> {
    entries: Vec<Entry<T>>,
    len: usize,
}

impl<T> Entry<T> {
    spec fn is_empty(self) -> bool {
        matches!(self, Entry::Empty)
    }

    spec fn is_data(self) -> bool {
        matches!(self, Entry::Data { .. })
    }

    spec fn is_tombstone(self) -> bool {
        matches!(self, Entry::Tombstone)
    }

    spec fn key_view(self) -> Seq<char> {
        match self {
            Entry::Data { key, .. } => key@,
            _ => Seq::empty(),
        }
    }

    spec fn val(self) -> T {
        match self {
            Entry::Data { value, .. } => value,
            _ => vstd::pervasive::arbitrary(),
        }
    }

    spec fn key_wf(self) -> bool {
        match self {
            Entry::Data { key, .. } => key.wf(),
            _ => true,
        }
    }
}

/// Number of non-empty (data or tombstone) buckets.
spec fn count_non_empty<T>(s: Seq<Entry<T>>) -> nat
    decreases s.len(),
{
    if s.len() == 0 {
        0
    } else {
        count_non_empty(s.drop_last()) + if s.last().is_empty() {
            0nat
        } else {
            1nat
        }
    }
}

/// Number of data buckets.
spec fn count_data<T>(s: Seq<Entry<T>>) -> nat
    decreases s.len(),
{
    if s.len() == 0 {
        0
    } else {
        count_data(s.drop_last()) + if s.last().is_data() {
            1nat
        } else {
            0nat
        }
    }
}

/// The bucket `key` hashes to in a table of capacity `cap`.
spec fn home_slot(k: Seq<char>, cap: int) -> int {
    spec_hash_string(k) as int % cap
}

/// Probe distance from slot `h` to slot `i`, walking forward with
/// wrap-around in a table of capacity `cap`.
spec fn dist(h: int, i: int, cap: int) -> int {
    if i >= h {
        i - h
    } else {
        i - h + cap
    }
}

/// Bucket `i` holds a data entry whose key content is `k`.
spec fn is_data_with<T>(s: Seq<Entry<T>>, i: int, k: Seq<char>) -> bool {
    0 <= i < s.len() && s[i].is_data() && s[i].key_view() == k
}

/// The structural invariant of the bucket array:
/// cached key hashes are correct, key contents are pairwise distinct, and
/// every data entry is connected to its home slot by non-empty buckets.
spec fn table_inv<T>(s: Seq<Entry<T>>) -> bool {
    &&& forall|i: int| 0 <= i < s.len() ==> (#[trigger] s[i]).key_wf()
    &&& forall|i: int, j: int|
        0 <= i < s.len() && 0 <= j < s.len() && i != j && (#[trigger] s[i]).is_data() && (
        #[trigger] s[j]).is_data() ==> s[i].key_view() != s[j].key_view()
    &&& forall|i: int, m: int|
        0 <= i < s.len() && 0 <= m < s.len() && (#[trigger] s[i]).is_data() && dist(
            home_slot(s[i].key_view(), s.len() as int),
            m,
            s.len() as int,
        ) < dist(home_slot(s[i].key_view(), s.len() as int), i, s.len() as int) ==> !(
        #[trigger] s[m]).is_empty()
}

/// Some bucket holds a data entry with key content `k`.
spec fn has_key<T>(s: Seq<Entry<T>>, k: Seq<char>) -> bool {
    exists|i: int| is_data_with(s, i, k)
}

/// The value stored under key content `k` (meaningful when `has_key` and
/// keys are pairwise distinct).
spec fn value_of<T>(s: Seq<Entry<T>>, k: Seq<char>) -> T {
    s[choose|i: int| is_data_with(s, i, k)].val()
}

/// The map from key contents to stored values.
spec fn seq_to_map<T>(s: Seq<Entry<T>>) -> Map<Seq<char>, T> {
    Map::new(|k: Seq<char>| has_key(s, k), |k: Seq<char>| value_of(s, k))
}

proof fn lemma_value_of_unique<T>(s: Seq<Entry<T>>, i: int, k: Seq<char>)
    requires
        table_inv(s),
        is_data_with(s, i, k),
    ensures
        value_of(s, k) == s[i].val(),
{
    let j = choose|j: int| is_data_with(s, j, k);
    assert(is_data_with(s, j, k));
    if i != j {
        assert(s[i].key_view() != s[j].key_view());
        assert(false);
    }
}

/// Counts split over update: replacing a bucket changes the counts by the
/// difference of the old and new bucket weights.
proof fn lemma_count_update<T>(s: Seq<Entry<T>>, i: int, e: Entry<T>)
    requires
        0 <= i < s.len(),
    ensures
        count_non_empty(s.update(i, e)) == count_non_empty(s) + (if e.is_empty() {
            0nat
        } else {
            1nat
        }) - (if s[i].is_empty() {
            0nat
        } else {
            1nat
        }),
        count_data(s.update(i, e)) == count_data(s) + (if e.is_data() {
            1nat
        } else {
            0nat
        }) - (if s[i].is_data() {
            1nat
        } else {
            0nat
        }),
    decreases s.len(),
{
    if s.len() > 0 {
        if i == s.len() - 1 {
            assert(s.update(i, e).drop_last() =~= s.drop_last());
            assert(s.update(i, e).last() == e);
        } else {
            lemma_count_update(s.drop_last(), i, e);
            assert(s.update(i, e).drop_last() =~= s.drop_last().update(i, e));
            assert(s.update(i, e).last() == s.last());
        }
    }
}

proof fn lemma_count_bounds<T>(s: Seq<Entry<T>>)
    ensures
        count_data(s) <= count_non_empty(s) <= s.len(),
        count_non_empty(s) == 0 ==> forall|i: int| 0 <= i < s.len() ==> (#[trigger] s[i]).is_empty(),
        (exists|i: int| 0 <= i < s.len() && (#[trigger] s[i]).is_empty()) ==> count_non_empty(s)
            < s.len(),
        count_non_empty(s) < s.len() ==> exists|i: int|
            0 <= i < s.len() && (#[trigger] s[i]).is_empty(),
    decreases s.len(),
{
    if s.len() > 0 {
        lemma_count_bounds(s.drop_last());
        assert forall|i: int|
            0 <= i < s.len() && count_non_empty(s) == 0 implies (#[trigger] s[i]).is_empty() by {
            if i < s.len() - 1 {
                assert(s.drop_last()[i] == s[i]);
            }
        }
        if exists|i: int| 0 <= i < s.len() && (#[trigger] s[i]).is_empty() {
            let i = choose|i: int| 0 <= i < s.len() && (#[trigger] s[i]).is_empty();
            if i < s.len() - 1 {
                assert(s.drop_last()[i] == s[i]);
                assert(count_non_empty(s.drop_last()) < s.drop_last().len());
            }
        }
        if count_non_empty(s) < s.len() {
            if s.last().is_empty() {
                assert(0 <= s.len() - 1 < s.len() && s[s.len() - 1].is_empty());
            } else {
                assert(count_non_empty(s.drop_last()) < s.drop_last().len());
                let i = choose|i: int|
                    0 <= i < s.drop_last().len() && (#[trigger] s.drop_last()[i]).is_empty();
                assert(s.drop_last()[i] == s[i]);
                assert(0 <= i < s.len() && s[i].is_empty());
            }
        }
    }
}

/// Without tombstones, every non-empty bucket is a data bucket.
proof fn lemma_tombstone_free_counts<T>(s: Seq<Entry<T>>)
    requires
        forall|i: int| 0 <= i < s.len() ==> !(#[trigger] s[i]).is_tombstone(),
    ensures
        count_data(s) == count_non_empty(s),
    decreases s.len(),
{
    if s.len() > 0 {
        assert forall|i: int| 0 <= i < s.drop_last().len() implies !(
        #[trigger] s.drop_last()[i]).is_tombstone() by {
            assert(s.drop_last()[i] == s[i]);
        }
        lemma_tombstone_free_counts(s.drop_last());
    }
}

/// Counts distribute over concatenation.
proof fn lemma_count_concat<T>(a: Seq<Entry<T>>, b: Seq<Entry<T>>)
    ensures
        count_non_empty(a + b) == count_non_empty(a) + count_non_empty(b),
        count_data(a + b) == count_data(a) + count_data(b),
    decreases b.len(),
{
    if b.len() == 0 {
        assert(a + b =~= a);
    } else {
        lemma_count_concat(a, b.drop_last());
        assert((a + b).drop_last() =~= a + b.drop_last());
        assert((a + b).last() == b.last());
    }
}

/// Appending a data bucket for an absent key extends the map view by that
/// key; appending any other bucket leaves the view unchanged.
proof fn lemma_map_push<T>(s: Seq<Entry<T>>, e: Entry<T>)
    requires
        forall|j: int, l: int|
            0 <= j < s.len() && 0 <= l < s.len() && j != l && (#[trigger] s[j]).is_data() && (
            #[trigger] s[l]).is_data() ==> s[j].key_view() != s[l].key_view(),
    ensures
        e.is_data() && !has_key(s, e.key_view()) ==> seq_to_map(s.push(e)) =~= seq_to_map(s).insert(
            e.key_view(),
            e.val(),
        ),
        !e.is_data() ==> seq_to_map(s.push(e)) =~= seq_to_map(s),
{
    let s2 = s.push(e);
    assert(s2[s.len() as int] == e);
    assert forall|k2: Seq<char>| #[trigger] has_key(s, k2) implies has_key(s2, k2) by {
        let j = choose|j: int| is_data_with(s, j, k2);
        assert(s2[j] == s[j]);
        assert(is_data_with(s2, j, k2));
    }
    if e.is_data() && !has_key(s, e.key_view()) {
        let k = e.key_view();
        assert(is_data_with(s2, s.len() as int, k));
        assert forall|k2: Seq<char>| #[trigger] has_key(s2, k2) implies (k2 == k || has_key(
            s,
            k2,
        )) by {
            let j = choose|j: int| is_data_with(s2, j, k2);
            if j < s.len() {
                assert(s2[j] == s[j]);
                assert(is_data_with(s, j, k2));
            }
        }
        assert forall|k2: Seq<char>| #[trigger] has_key(s2, k2) implies value_of(s2, k2)
            == seq_to_map(s).insert(k, e.val())[k2] by {
            let l = choose|l: int| is_data_with(s2, l, k2);
            assert(is_data_with(s2, l, k2));
            if k2 == k {
                if l < s.len() {
                    assert(s2[l] == s[l]);
                    assert(is_data_with(s, l, k));
                }
                assert(l == s.len() as int);
                assert(value_of(s2, k) == e.val());
            } else {
                assert(l < s.len());
                assert(s2[l] == s[l]);
                assert(is_data_with(s, l, k2));
                let l0 = choose|l0: int| is_data_with(s, l0, k2);
                assert(is_data_with(s2, l0, k2));
                assert(value_of(s2, k2) == s2[l].val());
                assert(value_of(s, k2) == s[l0].val());
                assert(s2[l0] == s[l0]);
                if l != l0 {
                    assert(value_of(s2, k2) == s2[choose|l: int| is_data_with(s2, l, k2)].val());
                }
            }
        }
    }
    if !e.is_data() {
        assert forall|k2: Seq<char>| #[trigger] has_key(s2, k2) implies has_key(s, k2) by {
            let j = choose|j: int| is_data_with(s2, j, k2);
            assert(j < s.len());
            assert(s2[j] == s[j]);
            assert(is_data_with(s, j, k2));
        }
        assert forall|k2: Seq<char>| #[trigger] has_key(s2, k2) implies value_of(s2, k2)
            == value_of(s, k2) by {
            let l = choose|l: int| is_data_with(s2, l, k2);
            let l0 = choose|l0: int| is_data_with(s, l0, k2);
            assert(is_data_with(s2, l, k2));
            assert(is_data_with(s, l0, k2));
            assert(l < s.len());
            assert(s2[l] == s[l]);
            assert(s2[l0] == s[l0]);
            assert(value_of(s2, k2) == s2[l].val());
            assert(value_of(s, k2) == s[l0].val());
        }
    }
}

/// A table of empty buckets holds no keys.
proof fn lemma_all_empty_no_keys<T>(s: Seq<Entry<T>>)
    requires
        forall|i: int| 0 <= i < s.len() ==> (#[trigger] s[i]).is_empty(),
    ensures
        seq_to_map(s) =~= Map::<Seq<char>, T>::empty(),
{
    assert forall|k: Seq<char>| !has_key(s, k) by {
        if has_key(s, k) {
            let i = choose|i: int| is_data_with(s, i, k);
            assert(s[i].is_empty());
        }
    }
}

impl<T: Copy> Table<T> {
    /// The structural invariant plus the live count: `len` counts the
    /// non-empty buckets (data and tombstones together), and the load factor
    /// keeps a quarter of the buckets empty.
    pub closed spec fn wf(&self) -> bool {
        &&& table_inv(self.entries@)
        &&& self.len == count_non_empty(self.entries@)
        &&& self.entries@.len() > 0 ==> {
            &&& self.entries@.len() >= 8
            &&& self.len <= self.entries@.len() / 4 * 3
            &&& self.entries@.len() <= usize::MAX / 2
        }
    }

    /// The live count: data entries plus tombstones. Never decremented by
    /// `delete`; reset to the number of data entries when the table grows.
    pub closed spec fn spec_len(&self) -> nat {
        self.len as nat
    }

    /// The number of data buckets: the keys the map view holds.
    pub closed spec fn spec_data_len(&self) -> nat {
        count_data(self.entries@)
    }

    /// The number of tombstones left by deletions and not yet reclaimed by
    /// a grow. The live count is always data plus tombstones.
    pub closed spec fn spec_tombstones(&self) -> nat {
        (count_non_empty(self.entries@) - count_data(self.entries@)) as nat
    }

    /// No bucket is a tombstone (true as long as nothing was ever deleted).
    pub closed spec fn spec_tombstone_free(&self) -> bool {
        forall|i: int| 0 <= i < self.entries@.len() ==> !(#[trigger] self.entries@[i]).is_tombstone()
    }

    pub closed spec fn view(&self) -> Map<Seq<char>, T> {
        seq_to_map(self.entries@)
    }

    pub fn new() -> (r: Table<T>)
        ensures
            r.wf(),
            r@ == Map::<Seq<char>, T>::empty(),
            r.spec_len() == 0,
            r.spec_data_len() == 0,
            r.spec_tombstones() == 0,
            r.spec_tombstone_free(),
    {
        let r = Table { entries: Vec::new(), len: 0 };
        proof {
            lemma_all_empty_no_keys(r.entries@);
        }
        r
    }

    /// Rebuilds the table with `new_cap` buckets, reinserting every data
    /// entry and dropping all tombstones.
    fn adjust_capacity(&mut self, new_cap: usize)
        requires
            old(self).wf(),
            new_cap >= 8,
            new_cap <= usize::MAX / 2,
            count_data(old(self).entries@) < new_cap / 4 * 3,
        ensures
            final(self).wf(),
            final(self)@ == old(self)@,
            final(self).spec_len() == count_data(old(self).entries@),
            final(self).spec_data_len() == old(self).spec_data_len(),
            final(self).spec_tombstones() == 0,
            final(self).spec_tombstone_free(),
            final(self).entries@.len() == new_cap,
            final(self).spec_len() <= old(self).spec_len(),
    {
        let ghost old_s = self.entries@;
        let mut new_entries: Vec<Entry<T>> = Vec::new();
        let mut i: usize = 0;
        while i < new_cap
            invariant
                0 <= i <= new_cap,
                new_entries@.len() == i,
                forall|j: int| 0 <= j < i ==> (#[trigger] new_entries@[j]).is_empty(),
            decreases new_cap - i,
        {
            new_entries.push(Entry::Empty);
            i = i + 1;
        }
        proof {
            lemma_count_empty_prefix(new_entries@);
            lemma_all_empty_no_keys(new_entries@);
        }
        let cap = self.entries.len();
        let mut new_len: usize = 0;
        let mut i: usize = 0;
        while i < cap
            invariant
                table_inv(old_s),
                self.entries@ == old_s,
                cap == old_s.len(),
                0 <= i <= cap,
                new_entries@.len() == new_cap,
                8 <= new_cap <= usize::MAX / 2,
                table_inv(new_entries@),
                forall|j: int| 0 <= j < new_cap ==> !(#[trigger] new_entries@[j]).is_tombstone(),
                new_len == count_non_empty(new_entries@),
                new_len == count_data(new_entries@),
                new_len == count_data(old_s.take(i as int)),
                count_data(old_s.take(i as int)) <= count_data(old_s),
                count_data(old_s) < new_cap / 4 * 3,
                seq_to_map(new_entries@) == seq_to_map(old_s.take(i as int)),
            decreases cap - i,
        {
            let ghost prefix = old_s.take(i as int);
            proof {
                assert(old_s.take(i as int + 1) =~= prefix.push(old_s[i as int]));
                assert(old_s.take(i as int + 1).drop_last() =~= prefix);
                lemma_prefix_unique(old_s, i as int);
                lemma_map_push(prefix, old_s[i as int]);
                lemma_count_bounds(new_entries@);
                assert(old_s =~= old_s.take(i as int + 1) + old_s.skip(i as int + 1));
                lemma_count_concat(old_s.take(i as int + 1), old_s.skip(i as int + 1));
                assert(old_s.take(i as int + 1).drop_last() =~= prefix);
            }
            match &self.entries[i] {
                Entry::Data { key, value } => {
                    let k: ObjString = key.clone();
                    let v: T = *value;
                    proof {
                        // the key is absent from the prefix already copied
                        assert(!has_key(prefix, k@)) by {
                            if has_key(prefix, k@) {
                                let j = choose|j: int| is_data_with(prefix, j, k@);
                                assert(prefix[j] == old_s[j]);
                                assert(is_data_with(old_s, j, k@));
                                assert(old_s[j].key_view() != old_s[i as int].key_view());
                            }
                        }
                    }
                    let (slot, kind) = Self::probe(&new_entries, &k);
                    proof {
                        match kind {
                            ProbeKind::KeyMatch => {
                                assert(has_key(new_entries@, k@));
                                assert(seq_to_map(new_entries@).dom().contains(k@));
                                assert(seq_to_map(prefix).dom().contains(k@));
                                assert(has_key(prefix, k@));
                                assert(false);
                            },
                            ProbeKind::TombstoneBucket => {
                                assert(new_entries@[slot as int].is_tombstone());
                                assert(false);
                            },
                            ProbeKind::EmptyBucket => {},
                        }
                    }
                    let ghost pre_insert = new_entries@;
                    let ghost kview = k@;
                    new_entries[slot] = Entry::Data { key: k, value: v };
                    proof {
                        let new_entry = new_entries@[slot as int];
                        lemma_count_update(pre_insert, slot as int, new_entry);
                        lemma_map_after_fresh_insert(pre_insert, slot as int, new_entry, kview, v);
                        lemma_inv_after_data_write(pre_insert, slot as int, new_entry);
                    }
                    new_len = new_len + 1;
                },
                _ => {
                    proof {
                        lemma_map_push(prefix, old_s[i as int]);
                    }
                },
            }
            i = i + 1;
        }
        proof {
            assert(old_s.take(cap as int) =~= old_s);
            lemma_count_bounds(old_s);
        }
        self.entries = new_entries;
        self.len = new_len;
    }

    /// Sets the value of the key in the table; the view becomes
    /// `old(self)@.insert(key@, value)`. Returns true exactly when the key
    /// was *not* already present. Grows (and rehashes, dropping tombstones)
    /// whenever the new live count would exceed three quarters of the
    /// capacity. The data count rises by one exactly for an absent key, the
    /// tombstone count never rises, and the live count is always data plus
    /// tombstones - so an insert that reuses a tombstone leaves the live
    /// count unchanged.
    #[verifier::rlimit(60)]
    pub fn set(&mut self, key: &ObjString, value: T) -> (r: bool)
        requires
            old(self).wf(),
            key.wf(),
            old(self).spec_len() < usize::MAX / 8,
        ensures
            final(self).wf(),
            final(self)@ == old(self)@.insert(key@, value),
            r == !old(self)@.dom().contains(key@),
            final(self).spec_len() <= old(self).spec_len() + 1,
            final(self).spec_data_len() == old(self).spec_data_len() + (if old(
                self,
            )@.dom().contains(key@) {
                0int
            } else {
                1int
            }),
            final(self).spec_tombstones() <= old(self).spec_tombstones(),
            final(self).spec_len() == final(self).spec_data_len() + final(self).spec_tombstones(),
            old(self).spec_tombstone_free() ==> final(self).spec_tombstone_free(),
            old(self).spec_tombstone_free() ==> final(self).spec_len()
                == old(self).spec_len() + (if old(self)@.dom().contains(key@) {
                0int
            } else {
                1int
            }),
    {
        let ghost pre = *self;
        let cap = self.entries.len();
        if self.len + 1 > cap / 4 * 3 {
            proof {
                lemma_count_bounds(self.entries@);
            }
            if cap < 8 {
                self.adjust_capacity(8);
            } else {
                self.adjust_capacity(cap * 2);
            }
        }
        proof {
            lemma_count_bounds(self.entries@);
            assert(self.entries@.len() / 4 * 3 < self.entries@.len());
        }
        let ghost s = self.entries@;
        let (slot, kind) = Self::probe(&self.entries, key);
        let ghost was_present = has_key(s, key@);
        proof {
            if was_present {
                let i = choose|i: int| is_data_with(s, i, key@);
                assert(seq_to_map(s).dom().contains(key@));
            }
            assert(was_present == self@.dom().contains(key@));
            assert(self@ == pre@);
        }
        let k = key.clone();
        let ghost pre_write = self.entries@;
        self.entries[slot] = Entry::Data { key: k, value };
        let ghost new_entry = self.entries@[slot as int];
        proof {
            lemma_count_update(pre_write, slot as int, new_entry);
            match kind {
                ProbeKind::KeyMatch => {
                    lemma_map_after_overwrite(pre_write, slot as int, new_entry, key@, value);
                },
                _ => {
                    lemma_map_after_fresh_insert(pre_write, slot as int, new_entry, key@, value);
                },
            }
            lemma_inv_after_data_write(pre_write, slot as int, new_entry);
            lemma_count_bounds(pre_write);
            lemma_count_bounds(self.entries@);
            match kind {
                ProbeKind::KeyMatch => {
                    assert(pre_write[slot as int].is_data());
                },
                ProbeKind::TombstoneBucket => {
                    assert(pre_write[slot as int].is_tombstone());
                },
                ProbeKind::EmptyBucket => {
                    assert(pre_write[slot as int].is_empty());
                },
            }
            if pre.spec_tombstone_free() {
                lemma_tombstone_free_counts(pre.entries@);
                assert(forall|j: int|
                    0 <= j < pre_write.len() ==> !(#[trigger] pre_write[j]).is_tombstone());
                lemma_tombstone_free_counts(pre_write);
                assert forall|j: int| 0 <= j < self.entries@.len() implies !(
                #[trigger] self.entries@[j]).is_tombstone() by {
                    if j != slot {
                        assert(self.entries@[j] == pre_write[j]);
                    }
                }
            }
        }
        match kind {
            ProbeKind::EmptyBucket => {
                self.len = self.len + 1;
                proof {
                    assert(!was_present);
                }
                true
            },
            ProbeKind::TombstoneBucket => {
                proof {
                    assert(!was_present);
                }
                true
            },
            ProbeKind::KeyMatch => {
                proof {
                    assert(was_present);
                    assert(is_data_with(pre_write, slot as int, key@));
                }
                false
            },
        }
    }

    /// The value stored under the key, or `None` when the key is absent.
    pub fn get(&self, key: &ObjString) -> (r: Option<&T>)
        requires
            self.wf(),
            key.wf(),
        ensures
            match r {
                Some(v) => self@.dom().contains(key@) && *v == self@[key@],
                None => !self@.dom().contains(key@),
            },
    {
        proof {
            lemma_count_bounds(self.entries@);
        }
        if self.len == 0 {
            proof {
                if has_key(self.entries@, key@) {
                    let i = choose|i: int| is_data_with(self.entries@, i, key@);
                }
            }
            return None;
        }
        let (slot, kind) = Self::probe(&self.entries, key);
        match kind {
            ProbeKind::KeyMatch => {
                proof {
                    lemma_value_of_unique(self.entries@, slot as int, key@);
                }
                match &self.entries[slot] {
                    Entry::Data { key: _, value } => Some(value),
                    _ => {
                        proof {
                            assert(false);
                        }
                        None
                    },
                }
            },
            _ => {
                proof {
                    if has_key(self.entries@, key@) {
                    }
                }
                None
            },
        }
    }

    /// Identical to `get`: looks a key up by its content. The interner uses
    /// this to find an already-allocated string equal to a candidate.
    pub fn find(&self, key: &ObjString) -> (r: Option<&T>)
        requires
            self.wf(),
            key.wf(),
        ensures
            match r {
                Some(v) => self@.dom().contains(key@) && *v == self@[key@],
                None => !self@.dom().contains(key@),
            },
    {
        self.get(key)
    }

    /// Deletes the key from the table; the view becomes
    /// `old(self)@.remove(key@)`. Returns true exactly when the key was
    /// present. The live count is *not* decremented: the tombstone left
    /// behind still counts against the load factor, so probe chains stay
    /// intact until the next grow.
    pub fn delete(&mut self, key: &ObjString) -> (r: bool)
        requires
            old(self).wf(),
            key.wf(),
        ensures
            final(self).wf(),
            final(self)@ == old(self)@.remove(key@),
            r == old(self)@.dom().contains(key@),
            final(self).spec_len() == old(self).spec_len(),
            final(self).spec_data_len() == old(self).spec_data_len() - (if old(
                self,
            )@.dom().contains(key@) {
                1int
            } else {
                0int
            }),
            final(self).spec_tombstones() == old(self).spec_tombstones() + (if old(
                self,
            )@.dom().contains(key@) {
                1int
            } else {
                0int
            }),
    {
        proof {
            lemma_count_bounds(self.entries@);
        }
        if self.len == 0 {
            proof {
                if has_key(self.entries@, key@) {
                    let i = choose|i: int| is_data_with(self.entries@, i, key@);
                }
                assert(self@ =~= self@.remove(key@));
            }
            return false;
        }
        let ghost s = self.entries@;
        let (slot, kind) = Self::probe(&self.entries, key);
        match kind {
            ProbeKind::KeyMatch => {
                let ghost pre_write = self.entries@;
                self.entries[slot] = Entry::Tombstone;
                proof {
                    lemma_count_update(pre_write, slot as int, Entry::Tombstone);
                    lemma_map_after_delete(pre_write, slot as int, key@);
                    lemma_inv_after_tombstone(pre_write, slot as int);
                    assert(seq_to_map(pre_write).dom().contains(key@));
                }
                true
            },
            _ => {
                proof {
                    if has_key(s, key@) {
                    }
                    assert(self@ =~= self@.remove(key@));
                }
                false
            },
        }
    }

    /// Finds the bucket for `key` by linear probing from its home slot:
    /// the matching data bucket if the key is present, otherwise the first
    /// tombstone seen if any, otherwise the empty bucket that ended the scan.
    /// The load-factor bound keeps at least one bucket empty, so the scan
    /// always stops.
    fn probe(entries: &Vec<Entry<T>>, key: &ObjString) -> (r: (usize, ProbeKind))
        requires
            table_inv(entries@),
            entries@.len() > 0,
            exists|e: int| 0 <= e < entries@.len() && (#[trigger] entries@[e]).is_empty(),
            key.wf(),
        ensures
            r.0 < entries@.len(),
            ({
                let s = entries@;
                let cap = s.len() as int;
                let h = home_slot(key@, cap);
                match r.1 {
                    ProbeKind::KeyMatch => is_data_with(s, r.0 as int, key@),
                    ProbeKind::EmptyBucket => {
                        &&& s[r.0 as int].is_empty()
                        &&& !has_key(s, key@)
                        &&& forall|m: int|
                            0 <= m < cap && dist(h, m, cap) < dist(h, r.0 as int, cap)
                                ==> !(#[trigger] s[m]).is_empty()
                    },
                    ProbeKind::TombstoneBucket => {
                        &&& s[r.0 as int].is_tombstone()
                        &&& !has_key(s, key@)
                        &&& forall|m: int|
                            0 <= m < cap && dist(h, m, cap) < dist(h, r.0 as int, cap)
                                ==> !(#[trigger] s[m]).is_empty()
                    },
                }
            }),
    {
        let ghost s = entries@;
        let cap = entries.len();
        let ghost icap = cap as int;
        let hash = key.get_hash();
        let ghost h = home_slot(key@, icap);
        let mut index: usize = (hash as usize) % cap;
        let mut tombstone: Option<usize> = None;
        let ghost mut steps: int = 0;
        let ghost e = choose|e: int| 0 <= e < s.len() && (#[trigger] s[e]).is_empty();
        let ghost de = dist(h, e, icap);
        proof {
            assert(0 <= h < icap) by (nonlinear_arith)
                requires
                    icap > 0,
                    h == spec_hash_string(key@) as int % icap,
            ;
            assert((h + 0) % icap == h) by (nonlinear_arith)
                requires
                    0 <= h < icap,
            ;
        }
        loop
            invariant
                table_inv(s),
                entries@ == s,
                icap == s.len(),
                cap == entries@.len(),
                0 < icap,
                key.wf(),
                h == home_slot(key@, icap),
                index < cap,
                0 <= e < icap && s[e].is_empty(),
                de == dist(h, e, icap),
                index as int == (h + steps) % icap,
                steps == dist(h, index as int, icap),
                0 <= steps <= de < icap,
                forall|t: int|
                    0 <= t < steps ==> !(#[trigger] s[(h + t) % icap]).is_empty() && !is_data_with(
                        s,
                        (h + t) % icap,
                        key@,
                    ),
                match tombstone {
                    Some(t) => t < cap && s[t as int].is_tombstone() && dist(h, t as int, icap)
                        < steps,
                    None => forall|t: int|
                        0 <= t < steps ==> !(#[trigger] s[(h + t) % icap]).is_tombstone(),
                },
            decreases de - steps,
        {
            match &entries[index] {
                Entry::Empty => {
                    proof {
                        assert(!has_key(s, key@)) by {
                            if has_key(s, key@) {
                                let i = choose|i: int| is_data_with(s, i, key@);
                                let di = dist(h, i, icap);
                                assert(home_slot(s[i].key_view(), icap) == h);
                                if di < steps {
                                    let m = (h + di) % icap;
                                    assert((h + di) % icap == i) by (nonlinear_arith)
                                        requires
                                            0 <= i < icap,
                                            0 <= h < icap,
                                            di == dist(h, i, icap),
                                            dist(h, i, icap) == if i >= h {
                                                i - h
                                            } else {
                                                i - h + icap
                                            },
                                    ;
                                    assert(is_data_with(s, m, key@));
                                } else if di == steps {
                                    assert(i == index as int) by (nonlinear_arith)
                                        requires
                                            0 <= i < icap,
                                            0 <= h < icap,
                                            di == dist(h, i, icap),
                                            steps == dist(h, index as int, icap),
                                            di == steps,
                                            index < icap,
                                            dist(h, i, icap) == if i >= h {
                                                i - h
                                            } else {
                                                i - h + icap
                                            },
                                            dist(h, index as int, icap) == if index as int >= h {
                                                index as int - h
                                            } else {
                                                index as int - h + icap
                                            },
                                    ;
                                } else {
                                    assert(dist(h, index as int, icap) < dist(h, i, icap));
                                    assert(!s[index as int].is_empty());
                                }
                            }
                        }
                    }
                    match tombstone {
                        Some(t) => {
                            proof {
                                assert forall|m: int|
                                    0 <= m < icap && dist(h, m, icap) < dist(h, t as int, icap)
                                        implies !(#[trigger] s[m]).is_empty() by {
                                    let tm = dist(h, m, icap);
                                    assert((h + tm) % icap == m) by (nonlinear_arith)
                                        requires
                                            0 <= m < icap,
                                            0 <= h < icap,
                                            tm == dist(h, m, icap),
                                            dist(h, m, icap) == if m >= h {
                                                m - h
                                            } else {
                                                m - h + icap
                                            },
                                    ;
                                }
                            }
                            return (t, ProbeKind::TombstoneBucket);
                        },
                        None => {
                            proof {
                                assert forall|m: int|
                                    0 <= m < icap && dist(h, m, icap) < dist(h, index as int, icap)
                                        implies !(#[trigger] s[m]).is_empty() by {
                                    let tm = dist(h, m, icap);
                                    assert((h + tm) % icap == m) by (nonlinear_arith)
                                        requires
                                            0 <= m < icap,
                                            0 <= h < icap,
                                            tm == dist(h, m, icap),
                                            dist(h, m, icap) == if m >= h {
                                                m - h
                                            } else {
                                                m - h + icap
                                            },
                                    ;
                                    assert(tm < steps);
                                }
                            }
                            return (index, ProbeKind::EmptyBucket);
                        },
                    }
                },
                Entry::Tombstone => {
                    if tombstone.is_none() {
                        tombstone = Some(index);
                    }
                },
                Entry::Data { key: k, value: _ } => {
                    if string_contents_equal(k.get_value(), key.get_value()) {
                        return (index, ProbeKind::KeyMatch);
                    }
                    proof {
                        assert(s[index as int].key_view() != key@);
                        assert(!is_data_with(s, index as int, key@));
                    }
                },
            }
            proof {
                assert((h + de) % icap == e) by (nonlinear_arith)
                    requires
                        0 <= e < icap,
                        0 <= h < icap,
                        de == dist(h, e, icap),
                        dist(h, e, icap) == if e >= h {
                            e - h
                        } else {
                            e - h + icap
                        },
                ;
                assert(steps < de);
                assert(((h + steps) % icap + 1) % icap == (h + (steps + 1)) % icap)
                    by (nonlinear_arith)
                    requires
                        0 < icap,
                        0 <= h < icap,
                        0 <= steps,
                ;
                let m2 = (h + (steps + 1)) % icap;
                assert(0 <= m2 < icap && dist(h, m2, icap) == steps + 1) by (nonlinear_arith)
                    requires
                        0 < icap,
                        0 <= h < icap,
                        0 <= steps + 1 < icap,
                        m2 == (h + (steps + 1)) % icap,
                        dist(h, m2, icap) == if m2 >= h {
                            m2 - h
                        } else {
                            m2 - h + icap
                        },
                ;
                steps = steps + 1;
            }
            index = (index + 1) % cap;
        }
    }
}

/// Replacing a bucket with a data entry for an absent key inserts exactly
/// that key into the map view, provided the old bucket held no data.
proof fn lemma_map_after_fresh_insert<T>(s: Seq<Entry<T>>, i: int, e: Entry<T>, k: Seq<char>, v: T)
    requires
        0 <= i < s.len(),
        !s[i].is_data(),
        !has_key(s, k),
        e.key_view() == k,
        e.is_data(),
        e.val() == v,
        forall|j: int, l: int|
            0 <= j < s.len() && 0 <= l < s.len() && j != l && (#[trigger] s[j]).is_data() && (
            #[trigger] s[l]).is_data() ==> s[j].key_view() != s[l].key_view(),
    ensures
        seq_to_map(s.update(i, e)) =~= seq_to_map(s).insert(k, v),
{
    let s2 = s.update(i, e);
    assert forall|k2: Seq<char>| #[trigger] has_key(s2, k2) implies (k2 == k || has_key(s, k2)) by {
        let j = choose|j: int| is_data_with(s2, j, k2);
        if j != i {
            assert(is_data_with(s, j, k2));
        }
    }
    assert forall|k2: Seq<char>| #[trigger] has_key(s, k2) implies has_key(s2, k2) by {
        let j = choose|j: int| is_data_with(s, j, k2);
        assert(j != i);
        assert(is_data_with(s2, j, k2));
    }
    assert(is_data_with(s2, i, k));
    assert forall|k2: Seq<char>| #[trigger] has_key(s2, k2) implies value_of(s2, k2)
        == seq_to_map(s).insert(k, v)[k2] by {
        let j = choose|j: int| is_data_with(s2, j, k2);
        if k2 == k {
            if j != i {
                assert(is_data_with(s, j, k2));
            }
            assert(j == i);
            assert(value_of(s2, k) == s2[i].val()) by {
                let l = choose|l: int| is_data_with(s2, l, k);
                if l != i {
                    assert(is_data_with(s, l, k));
                }
            }
        } else {
            assert(j != i);
            assert(is_data_with(s, j, k2));
            let l = choose|l: int| is_data_with(s2, l, k2);
            let l0 = choose|l0: int| is_data_with(s, l0, k2);
            assert(is_data_with(s2, l, k2));
            assert(l != i);
            assert(is_data_with(s, l, k2));
            assert(is_data_with(s, l0, k2));
            assert(is_data_with(s2, l0, k2));
            if l != l0 {
                assert(s[l].key_view() != s[l0].key_view());
            }
            assert(value_of(s2, k2) == s2[l].val());
            assert(value_of(s, k2) == s[l0].val());
            assert(s2[l].val() == s[l0].val());
        }
    }
}

/// Overwriting the data bucket that holds `k` updates exactly that key in
/// the map view.
proof fn lemma_map_after_overwrite<T>(s: Seq<Entry<T>>, i: int, e: Entry<T>, k: Seq<char>, v: T)
    requires
        0 <= i < s.len(),
        is_data_with(s, i, k),
        e.key_view() == k,
        e.is_data(),
        e.val() == v,
        forall|j: int, l: int|
            0 <= j < s.len() && 0 <= l < s.len() && j != l && (#[trigger] s[j]).is_data() && (
            #[trigger] s[l]).is_data() ==> s[j].key_view() != s[l].key_view(),
    ensures
        seq_to_map(s.update(i, e)) =~= seq_to_map(s).insert(k, v),
{
    let s2 = s.update(i, e);
    assert forall|k2: Seq<char>| #[trigger] has_key(s2, k2) implies (k2 == k || has_key(s, k2)) by {
        let j = choose|j: int| is_data_with(s2, j, k2);
        if j != i {
            assert(is_data_with(s, j, k2));
        }
    }
    assert forall|k2: Seq<char>| #[trigger] has_key(s, k2) implies has_key(s2, k2) by {
        let j = choose|j: int| is_data_with(s, j, k2);
        if j == i {
            assert(k2 == k);
            assert(is_data_with(s2, i, k));
        } else {
            assert(is_data_with(s2, j, k2));
        }
    }
    assert(is_data_with(s2, i, k));
    assert forall|k2: Seq<char>| #[trigger] has_key(s2, k2) implies value_of(s2, k2)
        == seq_to_map(s).insert(k, v)[k2] by {
        if k2 == k {
            let l = choose|l: int| is_data_with(s2, l, k);
            if l != i {
                assert(is_data_with(s, l, k));
                assert(s[l].key_view() == s[i].key_view());
                assert(false);
            }
            assert(value_of(s2, k) == s2[i].val());
        } else {
            let j = choose|j: int| is_data_with(s2, j, k2);
            assert(j != i);
            assert(is_data_with(s, j, k2));
            let l0 = choose|l0: int| is_data_with(s, l0, k2);
            assert(l0 != i);
            assert(is_data_with(s2, l0, k2));
            if j != l0 {
                assert(s[j].key_view() != s[l0].key_view());
            }
            assert(value_of(s2, k2) == s2[j].val());
            assert(value_of(s, k2) == s[l0].val());
        }
    }
}

/// Replacing the data bucket that holds `k` by a tombstone removes exactly
/// that key from the map view.
proof fn lemma_map_after_delete<T>(s: Seq<Entry<T>>, i: int, k: Seq<char>)
    requires
        0 <= i < s.len(),
        is_data_with(s, i, k),
        forall|j: int, l: int|
            0 <= j < s.len() && 0 <= l < s.len() && j != l && (#[trigger] s[j]).is_data() && (
            #[trigger] s[l]).is_data() ==> s[j].key_view() != s[l].key_view(),
    ensures
        seq_to_map(s.update(i, Entry::Tombstone)) =~= seq_to_map(s).remove(k),
{
    let s2 = s.update(i, Entry::<T>::Tombstone);
    assert forall|k2: Seq<char>| #[trigger] has_key(s2, k2) implies has_key(s, k2) && k2 != k by {
        let j = choose|j: int| is_data_with(s2, j, k2);
        assert(j != i);
        assert(is_data_with(s, j, k2));
        if k2 == k {
            assert(s[j].key_view() != s[i].key_view());
        }
    }
    assert forall|k2: Seq<char>| #[trigger] has_key(s, k2) && k2 != k implies has_key(s2, k2) by {
        let j = choose|j: int| is_data_with(s, j, k2);
        if j == i {
            assert(k2 == k);
        }
        assert(is_data_with(s2, j, k2));
    }
    assert forall|k2: Seq<char>| #[trigger] has_key(s2, k2) implies value_of(s2, k2) == value_of(
        s,
        k2,
    ) by {
        let j = choose|j: int| is_data_with(s2, j, k2);
        assert(j != i);
        assert(is_data_with(s, j, k2));
        let l0 = choose|l0: int| is_data_with(s, l0, k2);
        assert(l0 != i);
        assert(is_data_with(s2, l0, k2));
        if j != l0 {
            assert(s[j].key_view() != s[l0].key_view());
        }
        assert(value_of(s2, k2) == s2[j].val());
        assert(value_of(s, k2) == s[l0].val());
    }
}

/// A sequence of empty buckets has zero counts and satisfies the table
/// invariant vacuously.
proof fn lemma_count_empty_prefix<T>(s: Seq<Entry<T>>)
    requires
        forall|j: int| 0 <= j < s.len() ==> (#[trigger] s[j]).is_empty(),
    ensures
        count_non_empty(s) == 0,
        count_data(s) == 0,
        table_inv(s),
    decreases s.len(),
{
    if s.len() > 0 {
        assert forall|j: int| 0 <= j < s.drop_last().len() implies (
        #[trigger] s.drop_last()[j]).is_empty() by {
            assert(s.drop_last()[j] == s[j]);
        }
        lemma_count_empty_prefix(s.drop_last());
    }
}

/// Pairwise distinctness of data keys carries over to any prefix.
proof fn lemma_prefix_unique<T>(s: Seq<Entry<T>>, n: int)
    requires
        0 <= n <= s.len(),
        forall|j: int, l: int|
            0 <= j < s.len() && 0 <= l < s.len() && j != l && (#[trigger] s[j]).is_data() && (
            #[trigger] s[l]).is_data() ==> s[j].key_view() != s[l].key_view(),
    ensures
        forall|j: int, l: int|
            0 <= j < n && 0 <= l < n && j != l && (#[trigger] s.take(n)[j]).is_data() && (
            #[trigger] s.take(n)[l]).is_data() ==> s.take(n)[j].key_view() != s.take(
                n,
            )[l].key_view(),
{
    assert forall|j: int, l: int|
        0 <= j < n && 0 <= l < n && j != l && (#[trigger] s.take(n)[j]).is_data() && (
        #[trigger] s.take(n)[l]).is_data() implies s.take(n)[j].key_view() != s.take(
        n,
    )[l].key_view() by {
        assert(s.take(n)[j] == s[j]);
        assert(s.take(n)[l] == s[l]);
    }
}

/// Writing a data entry preserves the table invariant when either the bucket
/// already held the same key, or the key is absent and the bucket lies at
/// the end of an unbroken probe chain from the key's home slot.
proof fn lemma_inv_after_data_write<T>(s: Seq<Entry<T>>, i: int, e: Entry<T>)
    requires
        table_inv(s),
        0 <= i < s.len(),
        e.is_data(),
        e.key_wf(),
        (s[i].is_data() && s[i].key_view() == e.key_view()) || (!s[i].is_data() && !has_key(
            s,
            e.key_view(),
        ) && forall|m: int|
            0 <= m < s.len() && dist(
                home_slot(e.key_view(), s.len() as int),
                m,
                s.len() as int,
            ) < dist(home_slot(e.key_view(), s.len() as int), i, s.len() as int) ==> !(
            #[trigger] s[m]).is_empty()),
    ensures
        table_inv(s.update(i, e)),
{
    let s2 = s.update(i, e);
    let cap = s.len() as int;
    assert forall|j: int| 0 <= j < s2.len() implies (#[trigger] s2[j]).key_wf() by {
        if j != i {
            assert(s2[j] == s[j]);
        }
    }
    assert forall|j: int, l: int|
        0 <= j < s2.len() && 0 <= l < s2.len() && j != l && (#[trigger] s2[j]).is_data() && (
        #[trigger] s2[l]).is_data() implies s2[j].key_view() != s2[l].key_view() by {
        if j != i && l != i {
            assert(s2[j] == s[j]);
            assert(s2[l] == s[l]);
        } else if j == i {
            assert(s2[l] == s[l]);
            if s[i].is_data() && s[i].key_view() == e.key_view() {
                assert(s[l].key_view() != s[i].key_view());
            } else {
                if s2[j].key_view() == s2[l].key_view() {
                    assert(is_data_with(s, l, e.key_view()));
                }
            }
        } else {
            assert(s2[j] == s[j]);
            if s[i].is_data() && s[i].key_view() == e.key_view() {
                assert(s[j].key_view() != s[i].key_view());
            } else {
                if s2[j].key_view() == s2[l].key_view() {
                    assert(is_data_with(s, j, e.key_view()));
                }
            }
        }
    }
    assert forall|j: int, m: int|
        0 <= j < s2.len() && 0 <= m < s2.len() && (#[trigger] s2[j]).is_data() && dist(
            home_slot(s2[j].key_view(), cap),
            m,
            cap,
        ) < dist(home_slot(s2[j].key_view(), cap), j, cap) implies !(#[trigger] s2[m]).is_empty()
        by {
        if m == i {
            assert(!s2[i].is_empty());
        } else {
            assert(s2[m] == s[m]);
            if j != i {
                assert(s2[j] == s[j]);
            } else {
                if s[i].is_data() && s[i].key_view() == e.key_view() {
                    assert(s[i].is_data());
                } else {
                }
            }
        }
    }
}

/// Replacing a data bucket by a tombstone preserves the table invariant.
proof fn lemma_inv_after_tombstone<T>(s: Seq<Entry<T>>, i: int)
    requires
        table_inv(s),
        0 <= i < s.len(),
    ensures
        table_inv(s.update(i, Entry::Tombstone)),
{
    let s2 = s.update(i, Entry::<T>::Tombstone);
    let cap = s.len() as int;
    assert forall|j: int| 0 <= j < s2.len() implies (#[trigger] s2[j]).key_wf() by {
        if j != i {
            assert(s2[j] == s[j]);
        }
    }
    assert forall|j: int, l: int|
        0 <= j < s2.len() && 0 <= l < s2.len() && j != l && (#[trigger] s2[j]).is_data() && (
        #[trigger] s2[l]).is_data() implies s2[j].key_view() != s2[l].key_view() by {
        assert(j != i && l != i);
        assert(s2[j] == s[j]);
        assert(s2[l] == s[l]);
    }
    assert forall|j: int, m: int|
        0 <= j < s2.len() && 0 <= m < s2.len() && (#[trigger] s2[j]).is_data() && dist(
            home_slot(s2[j].key_view(), cap),
            m,
            cap,
        ) < dist(home_slot(s2[j].key_view(), cap), j, cap) implies !(#[trigger] s2[m]).is_empty()
        by {
        assert(j != i);
        assert(s2[j] == s[j]);
        if m != i {
            assert(s2[m] == s[m]);
        }
    }
}

/// The table behaves as the map its view is, across any sequence of
/// operations: after `set(k1, v)`, `get(k1)` yields `v` until `k1` is
/// deleted; and neither setting nor deleting `k1` disturbs any other key,
/// even across the grow cycles that `set` may trigger (the contracts of
/// `set`, `get` and `delete` speak of the same view). In particular,
/// tombstones never hide a present key.
pub proof fn lemma_table_map_laws<T>(m: Map<Seq<char>, T>, k1: Seq<char>, k2: Seq<char>, v: T)
    requires
        k1 != k2,
    ensures
        m.insert(k1, v).dom().contains(k1),
        m.insert(k1, v)[k1] == v,
        !m.insert(k1, v).remove(k1).dom().contains(k1),
        m.insert(k1, v).dom().contains(k2) == m.dom().contains(k2),
        m.dom().contains(k2) ==> m.insert(k1, v)[k2] == m[k2],
        m.remove(k1).dom().contains(k2) == m.dom().contains(k2),
        m.dom().contains(k2) ==> m.remove(k1)[k2] == m[k2],
{
}

/// Content equality of two strings.
pub fn string_contents_equal(a: &String, b: &String) -> (r: bool)
    ensures
        r == (a@ == b@),
{
    *a == *b
}

} // verus!
