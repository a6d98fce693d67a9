use vstd::prelude::*;
use crate::record::{FileRecord, RecordView};
use std::collections::HashMap;
use vstd::utf8::encode_utf8;

verus! {

broadcast use vstd::std_specs::hash::group_hash_axioms;

pub const FNV_OFFSET: u64 = 0xcbf29ce484222325;

pub const FNV_PRIME: u64 = 0x100000001b3;

/// FNV-1a over a byte string.
pub open spec fn fnv1a(b: Seq<u8>) -> u64
    decreases b.len(),
{
    if b.len() == 0 {
        FNV_OFFSET
    } else {
        vstd::wrapping::u64_specs::wrapping_mul(fnv1a(b.drop_last()) ^ (b.last() as u64), FNV_PRIME)
    }
}

/// The bucket of a path in the baseline's index: FNV-1a of its UTF-8 bytes.
pub open spec fn path_key(p: Seq<char>) -> u64 {
    fnv1a(encode_utf8(p))
}

/// The index bucket of a path.
pub fn path_hash(path: &String) -> (r: u64)
    ensures
        r == path_key(path@),
{
    let bytes = path.as_str().as_bytes();
    let mut h: u64 = FNV_OFFSET;
    let mut i: usize = 0;
    while i < bytes.len()
        invariant
            i <= bytes@.len(),
            bytes@ == encode_utf8(path@),
            h == fnv1a(bytes@.take(i as int)),
        decreases bytes@.len() - i,
    {
        proof {
            assert(bytes@.take(i + 1).drop_last() == bytes@.take(i as int));
            assert(bytes@.take(i + 1).last() == bytes@[i as int]);
        }
        h = (h ^ (bytes[i] as u64)).wrapping_mul(FNV_PRIME);
        i = i + 1;
    }
    proof {
        assert(bytes@.take(bytes@.len() as int) == bytes@);
    }
    h
}

/// The record that `p` maps to in `e`: the last entry with that path.
pub open spec fn find(e: Seq<RecordView>, p: Seq<char>) -> Option<RecordView>
    decreases e.len(),
{
    if e.len() == 0 {
        None
    } else if e.last().path == p {
        Some(e.last())
    } else {
        find(e.drop_last(), p)
    }
}

/// No two entries share a path.
pub open spec fn unique_paths(e: Seq<RecordView>) -> bool {
    forall|i: int, j: int| 0 <= i < j < e.len() ==> e[i].path != e[j].path
}

/// A path held by no entry looks up nothing.
pub proof fn lemma_find_absent(e: Seq<RecordView>, p: Seq<char>)
    requires
        forall|i: int| 0 <= i < e.len() ==> e[i].path != p,
    ensures
        find(e, p).is_none(),
    decreases e.len(),
{
    if e.len() > 0 {
        lemma_find_absent(e.drop_last(), p);
    }
}

/// Among entries with distinct paths, each entry is what its own path looks up.
pub proof fn lemma_find_at(e: Seq<RecordView>, i: int)
    requires
        unique_paths(e),
        0 <= i < e.len(),
    ensures
        find(e, e[i].path) == Some(e[i]),
    decreases e.len(),
{
    if i < e.len() - 1 {
        assert(e.last().path != e[i].path);
        assert(e.drop_last()[i] == e[i]);
        lemma_find_at(e.drop_last(), i);
    }
}

/// A baseline: records indexed by path, each path once.
pub struct Baseline {
    records: Vec<FileRecord>,
    /// For each bucket, the positions of the records whose path falls in it.
    index: HashMap<u64, Vec<usize>>,
}

impl Baseline {
    /// The records, in the order their paths were first inserted.
    pub closed spec fn entries(&self) -> Seq<RecordView> {
        self.records@.map_values(|r: FileRecord| r@)
    }

    /// The record for path `p`, if the baseline has one.
    pub open spec fn lookup(&self, p: Seq<char>) -> Option<RecordView> {
        find(self.entries(), p)
    }

    /// Paths are distinct, and every record's position sits in its path's bucket.
    pub closed spec fn wf(&self) -> bool {
        &&& unique_paths(self.entries())
        &&& forall|i: int|
            0 <= i < self.records@.len() ==> {
                let k = #[trigger] path_key(self.records@[i].path@);
                self.index@.contains_key(k) && self.index@[k]@.contains(i as usize)
            }
        &&& forall|k: u64, j: int|
            #![trigger self.index@[k]@[j]]
            self.index@.contains_key(k) && 0 <= j < self.index@[k]@.len() ==> self.index@[k]@[j]
                < self.records@.len()
    }

    /// No two records share a path.
    pub proof fn lemma_unique(&self)
        requires
            self.wf(),
        ensures
            unique_paths(self.entries()),
    {
    }

    /// The record held at position `i` is what its path looks up.
    pub proof fn lemma_lookup_entry(&self, i: int)
        requires
            self.wf(),
            0 <= i < self.entries().len(),
        ensures
            self.lookup(self.entries()[i].path) == Some(self.entries()[i]),
    {
        lemma_find_at(self.entries(), i);
    }

    /// An empty baseline.
    pub fn new() -> (r: Baseline)
        ensures
            r.wf(),
            r.entries().len() == 0,
            forall|p: Seq<char>| r.lookup(p).is_none(),
    {
        Baseline { records: Vec::new(), index: HashMap::new() }
    }

    /// The number of distinct paths held.
    pub fn len(&self) -> (r: usize)
        ensures
            r == self.entries().len(),
    {
        self.records.len()
    }

    /// The `i`-th record.
    pub fn entry(&self, i: usize) -> (r: &FileRecord)
        requires
            i < self.entries().len(),
        ensures
            r@ == self.entries()[i as int],
    {
        &self.records[i]
    }

    /// The position of the record for `path`, if there is one.
    pub fn position(&self, path: &String) -> (r: Option<usize>)
        requires
            self.wf(),
        ensures
            match r {
                Some(i) => i < self.entries().len() && self.entries()[i as int].path == path@,
                None => forall|i: int|
                    0 <= i < self.entries().len() ==> self.entries()[i].path != path@,
            },
            r.is_some() == self.lookup(path@).is_some(),
    {
        let key = path_hash(path);
        let n: usize = self.records.len();
        match self.index.get(&key) {
            Some(bucket) => {
                let mut j: usize = 0;
                while j < bucket.len()
                    invariant
                        self.wf(),
                        self.index@.contains_key(key),
                        *bucket == self.index@[key],
                        key == path_key(path@),
                        n == self.records@.len(),
                        j <= bucket@.len(),
                        forall|m: int| 0 <= m < j ==> self.entries()[bucket@[m] as int].path != path@,
                    decreases bucket@.len() - j,
                {
                    let i = bucket[j];
                    assert(self.index@[key]@[j as int] < self.records@.len());
                    if self.records[i].path == *path {
                        proof {
                            lemma_find_at(self.entries(), i as int);
                        }
                        return Some(i);
                    }
                    j = j + 1;
                }
                proof {
                    assert forall|i: int| 0 <= i < self.entries().len() implies self.entries()[i].path
                        != path@ by {
                        if self.entries()[i].path == path@ {
                            assert(self.entries().len() == self.records@.len());
                            assert(self.entries()[i] == self.records@[i]@);
                            assert(path_key(self.records@[i].path@) == key);
                            assert(j == bucket@.len());
                            assert(bucket@.contains(i as usize));
                            let m = choose|m: int| 0 <= m < bucket@.len() && bucket@[m] == i as usize;
                            assert(self.entries()[bucket@[m] as int].path != path@);
                        }
                    }
                }
            },
            None => {
                proof {
                    assert forall|i: int| 0 <= i < self.entries().len() implies self.entries()[i].path
                        != path@ by {
                        if self.entries()[i].path == path@ {
                            assert(self.entries()[i] == self.records@[i]@);
                            assert(path_key(self.records@[i].path@) == key);
                        }
                    }
                }
            },
        }
        proof {
            lemma_find_absent(self.entries(), path@);
        }
        None
    }

    /// The record for `path`, if there is one.
    pub fn get(&self, path: &String) -> (r: Option<&FileRecord>)
        requires
            self.wf(),
        ensures
            match r {
                Some(rec) => self.lookup(path@) == Some(rec@),
                None => self.lookup(path@).is_none(),
            },
    {
        match self.position(path) {
            Some(i) => {
                proof {
                    lemma_find_at(self.entries(), i as int);
                }
                Some(&self.records[i])
            },
            None => None,
        }
    }

    /// Adds a record; a record already held for the same path is replaced.
    pub fn insert(&mut self, rec: FileRecord)
        requires
            old(self).wf(),
        ensures
            final(self).wf(),
            final(self).lookup(rec.path@) == Some(rec@),
            forall|p: Seq<char>| p != rec.path@ ==> final(self).lookup(p) == old(self).lookup(p),
    {
        let ghost p = rec.path@;
        match self.position(&rec.path) {
            Some(i) => {
                self.records.set(i, rec);
                proof {
                    let e = self.entries();
                    assert(e == old(self).entries().update(i as int, rec@));
                    assert(forall|j: int| 0 <= j < e.len() ==> e[j].path == old(self).entries()[j].path);
                    assert forall|j: int| 0 <= j < e.len() implies #[trigger] self.records@[j].path@
                        == old(self).records@[j].path@ by {
                        assert(e[j] == self.records@[j]@);
                        assert(old(self).entries()[j] == old(self).records@[j]@);
                    }
                    lemma_find_at(e, i as int);
                    assert forall|q: Seq<char>| q != p implies find(e, q) == find(old(self).entries(), q) by {
                        lemma_find_same(old(self).entries(), e, q);
                    }
                }
            },
            None => {
                let key = path_hash(&rec.path);
                let n = self.records.len();
                let mut bucket = match self.index.remove(&key) {
                    Some(v) => v,
                    None => Vec::new(),
                };
                let ghost old_bucket = bucket@;
                bucket.push(n);
                self.index.insert(key, bucket);
                self.records.push(rec);
                proof {
                    let oi = old(self).index@;
                    let ni = self.index@;
                    assert(ni == oi.remove(key).insert(key, bucket));
                    assert(oi.contains_key(key) ==> old_bucket == oi[key]@);
                    assert(!oi.contains_key(key) ==> old_bucket == Seq::<usize>::empty());
                    assert(bucket@ == old_bucket.push(n));
                    assert forall|i: int| 0 <= i < self.records@.len() implies {
                        let k = #[trigger] path_key(self.records@[i].path@);
                        ni.contains_key(k) && ni[k]@.contains(i as usize)
                    } by {
                        let k = path_key(self.records@[i].path@);
                        if i < n {
                            assert(self.records@[i] == old(self).records@[i]);
                            assert(oi.contains_key(k) && oi[k]@.contains(i as usize));
                            if k == key {
                                let m = choose|m: int| 0 <= m < oi[k]@.len() && oi[k]@[m] == i as usize;
                                assert(bucket@[m] == i as usize);
                            }
                        } else {
                            assert(self.records@[i] == rec);
                            assert(bucket@[old_bucket.len() as int] == n);
                        }
                    }
                    assert forall|k: u64, j: int|
                        ni.contains_key(k) && 0 <= j < ni[k]@.len() implies #[trigger] ni[k]@[j]
                        < self.records@.len() by {
                        if k != key {
                            assert(ni[k] == oi[k]);
                        } else if j < old_bucket.len() {
                            assert(ni[k]@[j] == oi[k]@[j]);
                        }
                    }
                    let e = self.entries();
                    assert(e.drop_last() == old(self).entries());
                    assert(e.last() == rec@);
                    assert(forall|j: int| 0 <= j < e.len() - 1 ==> e[j] == old(self).entries()[j]);
                }
            },
        }
    }

    /// Indexes loaded records by path; a later record for a path replaces an earlier one.
    pub fn from_records(records: Vec<FileRecord>) -> (r: Baseline)
        ensures
            r.wf(),
            forall|p: Seq<char>| #[trigger] r.lookup(p) == find(records@.map_values(|x: FileRecord| x@), p),
    {
        let ghost all = records@.map_values(|x: FileRecord| x@);
        let mut records = records;
        let mut b = Baseline::new();
        // Taken from the back, so the first record kept for a path is its last one.
        while records.len() > 0
            invariant
                b.wf(),
                records@.map_values(|x: FileRecord| x@) == all.subrange(0, records@.len() as int),
                records@.len() <= all.len(),
                forall|p: Seq<char>|
                    #[trigger] b.lookup(p) == find(all.subrange(records@.len() as int, all.len() as int), p),
            decreases records.len(),
        {
            let ghost k = records@.len() as int;
            let ghost before = records@;
            let rec = records.pop().unwrap();
            proof {
                assert(all.subrange(0, k - 1) == all.subrange(0, k).drop_last());
                assert(before.map_values(|x: FileRecord| x@)[k - 1] == before[k - 1]@);
                assert(records@ == before.drop_last());
                assert(records@.map_values(|x: FileRecord| x@) == all.subrange(0, k - 1));
                assert(rec@ == all[k - 1]);
                assert(all.subrange(k - 1, all.len() as int) == seq![rec@] + all.subrange(k, all.len() as int));
                assert forall|p: Seq<char>| true implies #[trigger] find(all.subrange(k - 1, all.len() as int), p) == (
                match find(all.subrange(k, all.len() as int), p) {
                    Some(r) => Some(r),
                    None => if rec@.path == p { Some(rec@) } else { None },
                }) by {
                    lemma_find_prepend(rec@, all.subrange(k, all.len() as int), p);
                }
            }
            if b.position(&rec.path).is_none() {
                b.insert(rec);
            }
        }
        proof {
            assert(all.subrange(0, all.len() as int) == all);
        }
        b
    }
}

/// Putting a record in front changes the lookup only of a path that had none.
proof fn lemma_find_prepend(x: RecordView, s: Seq<RecordView>, p: Seq<char>)
    ensures
        find(seq![x] + s, p) == match find(s, p) {
            Some(r) => Some(r),
            None => if x.path == p { Some(x) } else { None },
        },
    decreases s.len(),
{
    let t = seq![x] + s;
    if s.len() == 0 {
        assert(t.last() == x);
        assert(t.drop_last().len() == 0);
        assert(find(t.drop_last(), p).is_none());
    } else {
        assert(t.last() == s.last());
        assert(t.drop_last() == seq![x] + s.drop_last());
        lemma_find_prepend(x, s.drop_last(), p);
    }
}

/// Replacing an entry by one with the same path changes no other path's lookup.
proof fn lemma_find_same(a: Seq<RecordView>, b: Seq<RecordView>, q: Seq<char>)
    requires
        a.len() == b.len(),
        forall|i: int| 0 <= i < a.len() ==> (a[i] == b[i] || (a[i].path == b[i].path && a[i].path != q)),
    ensures
        find(a, q) == find(b, q),
    decreases a.len(),
{
    if a.len() > 0 {
        lemma_find_same(a.drop_last(), b.drop_last(), q);
    }
}

} // verus!
