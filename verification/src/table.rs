use crate::key::{
    compare_keys, in_bounds, key_lt, lemma_key_lt_asymmetric, lemma_key_lt_irreflexive,
    lemma_key_lt_transitive, Bounds, KeyOrder, KeyRange,
};
use vstd::prelude::*;

verus! {

/// The records of a store: each key with the one value it has.
pub type Records = Map<Seq<u8>, Seq<u8>>;

/// A key together with the value stored under it.
#[derive(Clone, Debug, PartialEq, Eq)]
pub struct Record {
    pub key: Vec<u8>,
    pub value: Vec<u8>,
}

/// The records that a listing amounts to. Where a key is listed more than
/// once, the entry listed last holds its value.
pub open spec fn listing_map(list: Seq<Record>) -> Records
    decreases list.len(),
{
    if list.len() == 0 {
        Map::empty()
    } else {
        listing_map(list.drop_last()).insert(list.last().key@, list.last().value@)
    }
}

/// The keys of the listing rise strictly in byte order, so none is listed
/// twice.
pub open spec fn ascending(list: Seq<Record>) -> bool {
    forall|i: int, j: int| 0 <= i < j < list.len() ==> key_lt(#[trigger] list[i].key@, #[trigger] list[j].key@)
}

/// The part of `records` whose keys lie within `bounds`.
pub open spec fn within(records: Records, bounds: Bounds) -> Records {
    records.restrict(Set::new(|key: Seq<u8>| in_bounds(bounds, key)))
}

/// A copy of the bytes.
pub fn copy_bytes(bytes: &Vec<u8>) -> (r: Vec<u8>)
    ensures
        r@ == bytes@,
{
    let r = bytes.clone();
    assert(r@ =~= bytes@);
    r
}

/// A listing has a key exactly if one of its entries has it.
pub proof fn lemma_listing_keys(list: Seq<Record>, key: Seq<u8>)
    ensures
        listing_map(list).contains_key(key) <==> exists|i: int| 0 <= i < list.len() && #[trigger] list[i].key@ == key,
    decreases list.len(),
{
    if list.len() > 0 {
        let front = list.drop_last();
        lemma_listing_keys(front, key);
        if listing_map(list).contains_key(key) {
            if list.last().key@ == key {
                assert(list[list.len() - 1].key@ == key);
            } else {
                let i = choose|i: int| 0 <= i < front.len() && #[trigger] front[i].key@ == key;
                assert(list[i].key@ == key);
            }
        }
        if exists|i: int| 0 <= i < list.len() && #[trigger] list[i].key@ == key {
            let i = choose|i: int| 0 <= i < list.len() && #[trigger] list[i].key@ == key;
            if i < list.len() - 1 {
                assert(front[i].key@ == key);
            }
        }
    }
}

/// In an ascending listing every entry holds the value of its key.
pub proof fn lemma_listing_value(list: Seq<Record>, i: int)
    requires
        ascending(list),
        0 <= i < list.len(),
    ensures
        listing_map(list).contains_key(list[i].key@),
        listing_map(list)[list[i].key@] == list[i].value@,
    decreases list.len(),
{
    if i < list.len() - 1 {
        let front = list.drop_last();
        assert forall|a: int, b: int| 0 <= a < b < front.len() implies key_lt(
            #[trigger] front[a].key@,
            #[trigger] front[b].key@,
        ) by {
            assert(front[a] == list[a] && front[b] == list[b]);
        }
        lemma_listing_value(front, i);
        assert(front[i] == list[i]);
        assert(key_lt(list[i].key@, list[list.len() - 1].key@));
        lemma_key_lt_irreflexive(list[i].key@);
    }
}

/// Two ascending listings of the same records are the same listing.
pub proof fn law_ascending_listing_unique(a: Seq<Record>, b: Seq<Record>)
    requires
        ascending(a),
        ascending(b),
        listing_map(a) == listing_map(b),
    ensures
        a.len() == b.len(),
        forall|i: int| 0 <= i < a.len() ==> a[i].key@ == b[i].key@ && a[i].value@ == b[i].value@,
    decreases a.len(),
{
    if a.len() == 0 {
        if b.len() > 0 {
            lemma_listing_value(b, 0);
        }
    } else if b.len() == 0 {
        lemma_listing_value(a, 0);
    } else {
        // The last entries hold the greatest key of the common records.
        let la = a.len() - 1;
        let lb = b.len() - 1;
        lemma_listing_value(a, la);
        lemma_listing_value(b, lb);
        lemma_listing_keys(b, a[la].key@);
        lemma_listing_keys(a, b[lb].key@);
        let ib = choose|i: int| 0 <= i < b.len() && #[trigger] b[i].key@ == a[la].key@;
        let ia = choose|i: int| 0 <= i < a.len() && #[trigger] a[i].key@ == b[lb].key@;
        if a[la].key@ != b[lb].key@ {
            assert(key_lt(b[ib].key@, b[lb].key@));
            assert(key_lt(a[ia].key@, a[la].key@));
            lemma_key_lt_asymmetric(a[la].key@, b[lb].key@);
        }
        let fa = a.drop_last();
        let fb = b.drop_last();
        lemma_ascending_front(a);
        lemma_ascending_front(b);
        assert(listing_map(fa) =~= listing_map(fb)) by {
            assert forall|k: Seq<u8>| listing_map(fa).contains_key(k) <==> listing_map(fb).contains_key(k) by {
                lemma_front_keys(a, k);
                lemma_front_keys(b, k);
            }
            assert forall|k: Seq<u8>| listing_map(fa).contains_key(k) implies listing_map(fa)[k] == listing_map(fb)[k] by {
                lemma_front_keys(a, k);
                lemma_front_keys(b, k);
            }
        }
        law_ascending_listing_unique(fa, fb);
        assert forall|i: int| 0 <= i < a.len() implies a[i].key@ == b[i].key@ && a[i].value@ == b[i].value@ by {
            if i < la {
                assert(fa[i] == a[i] && fb[i] == b[i]);
            }
        }
    }
}

/// Without its last entry an ascending listing is still ascending.
proof fn lemma_ascending_front(list: Seq<Record>)
    requires
        ascending(list),
        list.len() > 0,
    ensures
        ascending(list.drop_last()),
{
    let front = list.drop_last();
    assert forall|a: int, b: int| 0 <= a < b < front.len() implies key_lt(
        #[trigger] front[a].key@,
        #[trigger] front[b].key@,
    ) by {
        assert(front[a] == list[a] && front[b] == list[b]);
    }
}

/// Without its last entry an ascending listing holds the same records but
/// the one of the last key.
proof fn lemma_front_keys(list: Seq<Record>, key: Seq<u8>)
    requires
        ascending(list),
        list.len() > 0,
    ensures
        listing_map(list.drop_last()).contains_key(key) <==> listing_map(list).contains_key(key) && key != list.last().key@,
        listing_map(list.drop_last()).contains_key(key) ==> listing_map(list.drop_last())[key] == listing_map(list)[key],
{
    let front = list.drop_last();
    lemma_listing_keys(front, key);
    if listing_map(front).contains_key(key) {
        let i = choose|i: int| 0 <= i < front.len() && #[trigger] front[i].key@ == key;
        assert(front[i] == list[i]);
        assert(key_lt(list[i].key@, list[list.len() - 1].key@));
        lemma_key_lt_irreflexive(key);
    }
}

/// An ordered table of records in memory.
///
/// It is the store of the baseline backend and the buffer in which the
/// records of a scan are put in order. It holds every record it was given,
/// so its memory grows with the number and size of the records.
#[derive(Debug)]
pub struct RecordTable {
    entries: Vec<Record>,
}

impl View for RecordTable {
    type V = Records;

    closed spec fn view(&self) -> Records {
        listing_map(self.entries@)
    }
}

impl RecordTable {
    #[verifier::type_invariant]
    spec fn ordered(self) -> bool {
        ascending(self.entries@)
    }

    /// A table without records.
    pub fn new() -> (r: RecordTable)
        ensures
            r@ == Records::empty(),
    {
        RecordTable { entries: Vec::new() }
    }

    /// The number of records.
    pub fn len(&self) -> (r: usize)
        ensures
            r == self@.len(),
            self@.dom().finite(),
    {
        proof {
            use_type_invariant(self);
            lemma_listing_len(self.entries@);
        }
        self.entries.len()
    }

    /// Hands out the entries and leaves the table empty.
    fn take_entries(&mut self) -> (r: Vec<Record>)
        ensures
            r == old(self).entries,
            ascending(r@),
            final(self).entries@.len() == 0,
    {
        proof {
            use_type_invariant(&*self);
        }
        let mut taken = RecordTable { entries: Vec::new() };
        core::mem::swap(self, &mut taken);
        let RecordTable { entries } = taken;
        entries
    }

    /// Where `key` stands in the table, or where it would have to be put:
    /// every entry before the position has a smaller key and every entry
    /// after it a greater one.
    fn locate(&self, key: &[u8]) -> (r: (usize, bool))
        ensures
            r.0 <= self.entries@.len(),
            forall|i: int| 0 <= i < r.0 ==> key_lt(#[trigger] self.entries@[i].key@, key@),
            r.1 ==> r.0 < self.entries@.len() && self.entries@[r.0 as int].key@ == key@,
            !r.1 ==> forall|i: int| r.0 <= i < self.entries@.len() ==> key_lt(key@, #[trigger] self.entries@[i].key@),
            r.1 <==> self@.contains_key(key@),
    {
        proof {
            use_type_invariant(self);
        }
        let mut low: usize = 0;
        let mut high: usize = self.entries.len();
        while low < high
            invariant
                ascending(self.entries@),
                low <= high <= self.entries@.len(),
                forall|i: int| 0 <= i < low ==> key_lt(#[trigger] self.entries@[i].key@, key@),
                forall|i: int| high <= i < self.entries@.len() ==> key_lt(key@, #[trigger] self.entries@[i].key@),
            decreases high - low,
        {
            let mid: usize = low + (high - low) / 2;
            match compare_keys(self.entries[mid].key.as_slice(), key) {
                KeyOrder::Before => {
                    proof {
                        assert forall|i: int| 0 <= i < mid + 1 implies key_lt(#[trigger] self.entries@[i].key@, key@) by {
                            if i < mid {
                                lemma_key_lt_transitive(self.entries@[i].key@, self.entries@[mid as int].key@, key@);
                            }
                        }
                    }
                    low = mid + 1;
                },
                KeyOrder::Same => {
                    proof {
                        lemma_listing_value(self.entries@, mid as int);
                        assert forall|i: int| 0 <= i < mid implies key_lt(#[trigger] self.entries@[i].key@, key@) by {}
                    }
                    return (mid, true);
                },
                KeyOrder::After => {
                    proof {
                        assert forall|i: int| mid <= i < self.entries@.len() implies key_lt(key@, #[trigger] self.entries@[i].key@) by {
                            if i > mid {
                                lemma_key_lt_transitive(key@, self.entries@[mid as int].key@, self.entries@[i].key@);
                            }
                        }
                    }
                    high = mid;
                },
            }
        }
        proof {
            lemma_listing_keys(self.entries@, key@);
            if self@.contains_key(key@) {
                let i = choose|i: int| 0 <= i < self.entries@.len() && #[trigger] self.entries@[i].key@ == key@;
                lemma_key_lt_irreflexive(key@);
            }
        }
        (low, false)
    }

    /// All records, in ascending byte order of their keys.
    pub fn into_records(self) -> (r: Vec<Record>)
        ensures
            ascending(r@),
            listing_map(r@) == self@,
    {
        proof {
            use_type_invariant(&self);
        }
        let RecordTable { entries } = self;
        entries
    }

    /// The value stored under `key`, if there is one.
    pub fn get(&self, key: &[u8]) -> (r: Option<Vec<u8>>)
        ensures
            match r {
                Some(value) => self@.contains_key(key@) && self@[key@] == value@,
                None => !self@.contains_key(key@),
            },
    {
        proof {
            use_type_invariant(self);
        }
        let (at, found) = self.locate(key);
        if found {
            proof {
                lemma_listing_value(self.entries@, at as int);
            }
            Some(copy_bytes(&self.entries[at].value))
        } else {
            None
        }
    }

    /// Stores `value` under `key`, in place of the value that the key had.
    pub fn put(&mut self, key: Vec<u8>, value: Vec<u8>)
        ensures
            final(self)@ == old(self)@.insert(key@, value@),
    {
        proof {
            use_type_invariant(&*self);
        }
        let (at, found) = self.locate(key.as_slice());
        let ghost before = self.entries@;
        let ghost record = Record { key, value };
        let mut entries = self.take_entries();
        if found {
            entries.remove(at);
        }
        let ghost stripped = entries@;
        entries.insert(at, Record { key, value });
        proof {
            let after = entries@;
            assert(after == stripped.insert(at as int, record));
            assert forall|i: int, j: int| 0 <= i < j < after.len() implies key_lt(
                #[trigger] after[i].key@,
                #[trigger] after[j].key@,
            ) by {
                let shift = if found { 1int } else { 0int };
                let bi = if i < at { i } else { i - 1 + shift };
                let bj = if j < at { j } else { j - 1 + shift };
                if i != at {
                    assert(after[i] == before[bi]);
                }
                if j != at {
                    assert(after[j] == before[bj]);
                }
                if i == at && found {
                    assert(key_lt(before[at as int].key@, before[bj].key@));
                }
                if j == at && found {
                    assert(key_lt(before[bi].key@, before[at as int].key@));
                }
            }
            assert(listing_map(after) =~= listing_map(before).insert(key@, value@)) by {
                assert forall|k: Seq<u8>| #[trigger]
                    listing_map(after).contains_key(k) <==> (k == key@ || listing_map(before).contains_key(k)) by {
                    lemma_listing_keys(after, k);
                    lemma_listing_keys(before, k);
                    if listing_map(after).contains_key(k) && k != key@ {
                        let i = choose|i: int| 0 <= i < after.len() && #[trigger] after[i].key@ == k;
                        let shift = if found { 1int } else { 0int };
                        let bi = if i < at { i } else { i - 1 + shift };
                        assert(after[i] == before[bi]);
                        assert(before[bi].key@ == k);
                    }
                    if listing_map(before).contains_key(k) && k != key@ {
                        let i = choose|i: int| 0 <= i < before.len() && #[trigger] before[i].key@ == k;
                        let shift = if found { 1int } else { 0int };
                        let ai = if i < at { i } else { i + 1 - shift };
                        assert(after[ai] == before[i]);
                        assert(after[ai].key@ == k);
                    }
                    if k == key@ {
                        assert(after[at as int].key@ == k);
                    }
                }
                assert forall|k: Seq<u8>| #[trigger] listing_map(after).contains_key(k) implies listing_map(after)[k]
                    == listing_map(before).insert(key@, value@)[k] by {
                    lemma_listing_keys(after, k);
                    let i = choose|i: int| 0 <= i < after.len() && #[trigger] after[i].key@ == k;
                    lemma_listing_value(after, i);
                    if k == key@ {
                        lemma_key_lt_irreflexive(k);
                        assert(i == at);
                    } else {
                        let shift = if found { 1int } else { 0int };
                        let bi = if i < at { i } else { i - 1 + shift };
                        assert(after[i] == before[bi]);
                        lemma_listing_value(before, bi);
                    }
                }
            }
        }
        *self = RecordTable { entries };
    }

    /// Removes the record of `key`, if there is one.
    pub fn delete(&mut self, key: &[u8])
        ensures
            final(self)@ == old(self)@.remove(key@),
    {
        proof {
            use_type_invariant(&*self);
        }
        let (at, found) = self.locate(key);
        let ghost before = self.entries@;
        if found {
            let mut entries = self.take_entries();
            entries.remove(at);
            proof {
                let after = entries@;
                assert forall|i: int, j: int| 0 <= i < j < after.len() implies key_lt(
                    #[trigger] after[i].key@,
                    #[trigger] after[j].key@,
                ) by {
                    let bi = if i < at { i } else { i + 1 };
                    let bj = if j < at { j } else { j + 1 };
                    assert(after[i] == before[bi] && after[j] == before[bj]);
                }
                assert(listing_map(after) =~= listing_map(before).remove(key@)) by {
                    assert forall|k: Seq<u8>| #[trigger]
                        listing_map(after).contains_key(k) <==> (k != key@ && listing_map(before).contains_key(k)) by {
                        lemma_listing_keys(after, k);
                        lemma_listing_keys(before, k);
                        if listing_map(after).contains_key(k) {
                            let i = choose|i: int| 0 <= i < after.len() && #[trigger] after[i].key@ == k;
                            let bi = if i < at { i } else { i + 1 };
                            assert(after[i] == before[bi]);
                            assert(before[bi].key@ == k);
                            if k == key@ {
                                lemma_key_lt_irreflexive(k);
                                assert(bi != at);
                                if bi < at {
                                    assert(key_lt(before[bi].key@, before[at as int].key@));
                                } else {
                                    assert(key_lt(before[at as int].key@, before[bi].key@));
                                }
                            }
                        }
                        if listing_map(before).contains_key(k) && k != key@ {
                            let i = choose|i: int| 0 <= i < before.len() && #[trigger] before[i].key@ == k;
                            let ai = if i < at { i } else { i - 1 };
                            assert(after[ai] == before[i]);
                            assert(after[ai].key@ == k);
                        }
                    }
                    assert forall|k: Seq<u8>| #[trigger] listing_map(after).contains_key(k) implies listing_map(
                        after,
                    )[k] == listing_map(before)[k] by {
                        lemma_listing_keys(after, k);
                        let i = choose|i: int| 0 <= i < after.len() && #[trigger] after[i].key@ == k;
                        lemma_listing_value(after, i);
                        let bi = if i < at { i } else { i + 1 };
                        assert(after[i] == before[bi]);
                        lemma_listing_value(before, bi);
                    }
                }
            }
            *self = RecordTable { entries };
        } else {
            assert(listing_map(before) =~= listing_map(before).remove(key@));
        }
    }

    /// The records whose keys lie in `range`, in ascending byte order of
    /// their keys.
    pub fn scan(&self, range: &KeyRange) -> (r: Vec<Record>)
        ensures
            ascending(r@),
            listing_map(r@) == within(self@, range@),
    {
        proof {
            use_type_invariant(self);
        }
        let mut out: Vec<Record> = Vec::new();
        let ghost mut picked: Seq<int> = Seq::empty();
        let mut i: usize = 0;
        while i < self.entries.len()
            invariant
                ascending(self.entries@),
                i <= self.entries@.len(),
                picked.len() == out@.len(),
                forall|n: int| 0 <= n < picked.len() ==> 0 <= #[trigger] picked[n] < i,
                forall|n: int, m: int| 0 <= n < m < picked.len() ==> picked[n] < picked[m],
                forall|n: int| #![trigger out@[n]] 0 <= n < out@.len() ==> out@[n].key@ == self.entries@[picked[n]].key@
                        && out@[n].value@ == self.entries@[picked[n]].value@
                        && in_bounds(range@, out@[n].key@),
                forall|e: int| #![trigger self.entries@[e]] 0 <= e < i && in_bounds(range@, self.entries@[e].key@)
                    ==> exists|n: int| 0 <= n < picked.len() && #[trigger] picked[n] == e,
            decreases self.entries@.len() - i,
        {
            if range.contains(self.entries[i].key.as_slice()) {
                let ghost earlier = picked;
                out.push(
                    Record { key: copy_bytes(&self.entries[i].key), value: copy_bytes(&self.entries[i].value) },
                );
                proof {
                    picked = picked.push(i as int);
                    assert forall|e: int| #![trigger self.entries@[e]] 0 <= e < i + 1 && in_bounds(
                        range@,
                        self.entries@[e].key@,
                    ) implies exists|n: int| 0 <= n < picked.len() && #[trigger] picked[n] == e by {
                        if e < i {
                            let n = choose|n: int| 0 <= n < earlier.len() && #[trigger] earlier[n] == e;
                            assert(picked[n] == e);
                        } else {
                            assert(picked[picked.len() - 1] == e);
                        }
                    }
                }
            }
            i += 1;
        }
        proof {
            let list = self.entries@;
            assert forall|n: int, m: int| 0 <= n < m < out@.len() implies key_lt(
                #[trigger] out@[n].key@,
                #[trigger] out@[m].key@,
            ) by {
                assert(key_lt(list[picked[n]].key@, list[picked[m]].key@));
            }
            assert(listing_map(out@) =~= within(self@, range@)) by {
                assert forall|k: Seq<u8>| #[trigger]
                    listing_map(out@).contains_key(k) <==> within(self@, range@).contains_key(k) by {
                    lemma_listing_keys(out@, k);
                    lemma_listing_keys(list, k);
                    if listing_map(out@).contains_key(k) {
                        let n = choose|n: int| 0 <= n < out@.len() && #[trigger] out@[n].key@ == k;
                        assert(list[picked[n]].key@ == k);
                    }
                    if within(self@, range@).contains_key(k) {
                        let e = choose|e: int| 0 <= e < list.len() && #[trigger] list[e].key@ == k;
                        let n = choose|n: int| 0 <= n < picked.len() && #[trigger] picked[n] == e;
                        assert(out@[n].key@ == k);
                    }
                }
                assert forall|k: Seq<u8>| #[trigger] listing_map(out@).contains_key(k) implies listing_map(out@)[k]
                    == within(self@, range@)[k] by {
                    lemma_listing_keys(out@, k);
                    let n = choose|n: int| 0 <= n < out@.len() && #[trigger] out@[n].key@ == k;
                    lemma_listing_value(out@, n);
                    lemma_listing_value(list, picked[n]);
                }
            }
        }
        out
    }
}

/// Puts a listing in order: the records that the listing amounts to within
/// `range`, in ascending byte order of their keys.
///
/// The listing is buffered in a table, so the memory this takes grows with
/// the number and size of the listed records, and the time with the square
/// of their number.
pub fn arrange(list: Vec<Record>, range: &KeyRange) -> (r: Vec<Record>)
    ensures
        ascending(r@),
        listing_map(r@) == within(listing_map(list@), range@),
{
    let mut table = RecordTable::new();
    let mut list = list;
    let ghost whole = list@;
    let mut rest: Vec<Record> = Vec::new();
    // The entries are taken from the end, so they are turned round first.
    while list.len() > 0
        invariant
            list@.len() + rest@.len() == whole.len(),
            forall|i: int| 0 <= i < list@.len() ==> list@[i] == whole[i],
            forall|i: int| 0 <= i < rest@.len() ==> rest@[i] == whole[whole.len() - 1 - i],
        decreases list@.len(),
    {
        let record = list.pop().unwrap();
        rest.push(record);
    }
    let ghost mut done: int = 0;
    while rest.len() > 0
        invariant
            0 <= done <= whole.len(),
            rest@.len() == whole.len() - done,
            forall|i: int| 0 <= i < rest@.len() ==> rest@[i] == whole[whole.len() - 1 - i],
            table@ == within(listing_map(whole.take(done)), range@),
        decreases rest@.len(),
    {
        let record = rest.pop().unwrap();
        proof {
            assert(record == whole[done]);
            assert(whole.take(done + 1).drop_last() =~= whole.take(done));
            assert(whole.take(done + 1).last() == whole[done]);
        }
        let ghost before = table@;
        if range.contains(record.key.as_slice()) {
            table.put(record.key, record.value);
            assert(table@ =~= within(listing_map(whole.take(done + 1)), range@));
        } else {
            assert(table@ =~= within(listing_map(whole.take(done + 1)), range@));
        }
        proof {
            done = done + 1;
        }
    }
    assert(whole.take(done) =~= whole);
    table.into_records()
}

impl RecordTable {
    /// The table of the records that a listing amounts to.
    pub fn from_records(list: Vec<Record>) -> (r: RecordTable)
        ensures
            r@ == listing_map(list@),
    {
        let everything = KeyRange { start: None, end: None };
        let entries = arrange(list, &everything);
        assert(within(listing_map(list@), everything@) =~= listing_map(list@));
        RecordTable { entries }
    }
}

/// An ascending listing has as many entries as it has records.
proof fn lemma_listing_len(list: Seq<Record>)
    requires
        ascending(list),
    ensures
        listing_map(list).dom().finite(),
        listing_map(list).len() == list.len(),
    decreases list.len(),
{
    if list.len() > 0 {
        lemma_ascending_front(list);
        lemma_listing_len(list.drop_last());
        lemma_front_keys(list, list.last().key@);
    }
}

} // verus!
