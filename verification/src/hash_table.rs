//! The deduplication ledger: known content digests, bucketed by file size.
//!
//! A digest is only ever compared against files of the same size, so the
//! ledger keeps one bucket of digests per size.  Persistence (the ledger
//! is saved as a data file between runs) belongs to the surrounding
//! binary; the verified side owns the lookups and the insertion.

use vstd::prelude::*;

verus! {

/// Known content digests, bucketed by file size.
#[derive(Debug)]
pub struct HashTable {
    entries: Vec<(u64, Vec<String>)>,
}

impl HashTable {
    /// Sizes appear at most once among the buckets.
    pub closed spec fn wf(self) -> bool {
        forall|a: int, b: int|
            0 <= a < b < self.entries@.len() ==> (#[trigger] self.entries@[a]).0
                != (#[trigger] self.entries@[b]).0
    }

    /// Whether some file of this size has been recorded.
    pub closed spec fn spec_has_size(self, size: u64) -> bool {
        exists|k: int| 0 <= k < self.entries@.len() && (#[trigger] self.entries@[k]).0 == size
    }

    /// Whether this digest has been recorded under this size.
    pub closed spec fn spec_contains(self, size: u64, hash: Seq<char>) -> bool {
        exists|k: int, j: int|
            0 <= k < self.entries@.len() && (#[trigger] self.entries@[k]).0 == size && 0 <= j
                < self.entries@[k].1@.len() && (#[trigger] self.entries@[k].1@[j])@ == hash
    }

    /// An empty ledger.
    pub fn new() -> (r: HashTable)
        ensures
            r.wf(),
            forall|size: u64| !r.spec_has_size(size),
            forall|size: u64, h: Seq<char>| !r.spec_contains(size, h),
            r.spec_is_empty(),
    {
        HashTable { entries: Vec::new() }
    }

    /// Whether nothing has been recorded yet.
    pub closed spec fn spec_is_empty(self) -> bool {
        self.entries@.len() == 0
    }

    /// Whether nothing has been recorded yet.
    pub fn is_empty(&self) -> (r: bool)
        ensures
            r == self.spec_is_empty(),
    {
        self.entries.len() == 0
    }

    /// Whether some file of this size has been recorded.
    pub fn has_size(&self, size: u64) -> (r: bool)
        ensures
            r == self.spec_has_size(size),
    {
        let mut k: usize = 0;
        while k < self.entries.len()
            invariant
                k <= self.entries@.len(),
                forall|m: int| 0 <= m < k ==> (#[trigger] self.entries@[m]).0 != size,
            decreases self.entries.len() - k,
        {
            if self.entries[k].0 == size {
                return true;
            }
            k += 1;
        }
        false
    }

    /// Whether this digest has been recorded under this size.
    pub fn contains_hash(&self, size: u64, hash: &str) -> (r: bool)
        ensures
            r == self.spec_contains(size, hash@),
    {
        let needle: String = hash.to_owned();
        let mut k: usize = 0;
        while k < self.entries.len()
            invariant
                k <= self.entries@.len(),
                needle@ == hash@,
                forall|m: int, j: int|
                    0 <= m < k && (#[trigger] self.entries@[m]).0 == size && 0 <= j
                        < self.entries@[m].1@.len() ==> (#[trigger] self.entries@[m].1@[j])@
                        != hash@,
            decreases self.entries.len() - k,
        {
            if self.entries[k].0 == size {
                let bucket = &self.entries[k].1;
                let mut j: usize = 0;
                while j < bucket.len()
                    invariant
                        j <= bucket@.len(),
                        needle@ == hash@,
                        bucket == self.entries@[k as int].1,
                        self.entries@[k as int].0 == size,
                        k < self.entries@.len(),
                        forall|w: int| 0 <= w < j ==> (#[trigger] bucket@[w])@ != hash@,
                    decreases bucket.len() - j,
                {
                    let hit = bucket[j].eq(&needle);
                    if hit {
                        proof {
                            assert((self.entries@[k as int].1@[j as int])@ == hash@);
                            assert(self.entries@[k as int].0 == size);
                            assert(self.spec_contains(size, hash@));
                        }
                        return true;
                    }
                    j += 1;
                }
            }
            k += 1;
        }
        false
    }

    /// The recorded buckets as they stand.
    pub closed spec fn spec_entries(self) -> Seq<(u64, Vec<String>)> {
        self.entries@
    }

    /// Copies the buckets out, for persistence by the surrounding binary.
    pub fn export(&self) -> (r: Vec<(u64, Vec<String>)>)
        ensures
            r@.len() == self.spec_entries().len(),
            forall|k: int|
                0 <= k < r@.len() ==> (#[trigger] r@[k]).0 == self.spec_entries()[k].0
                    && (r@[k].1)@ == (self.spec_entries()[k].1)@,
    {
        let mut r: Vec<(u64, Vec<String>)> = Vec::new();
        let mut k: usize = 0;
        while k < self.entries.len()
            invariant
                k <= self.entries@.len(),
                r@.len() == k,
                forall|m: int|
                    0 <= m < k ==> (#[trigger] r@[m]).0 == self.entries@[m].0 && (r@[m].1)@
                        == (self.entries@[m].1)@,
            decreases self.entries.len() - k,
        {
            let size = self.entries[k].0;
            let bucket = &self.entries[k].1;
            let mut copy: Vec<String> = Vec::new();
            let mut j: usize = 0;
            while j < bucket.len()
                invariant
                    j <= bucket@.len(),
                    bucket == self.entries@[k as int].1,
                    k < self.entries@.len(),
                    copy@ == bucket@.take(j as int),
                decreases bucket.len() - j,
            {
                copy.push(bucket[j].clone());
                proof {
                    assert(copy@ =~= bucket@.take(j as int + 1));
                }
                j += 1;
            }
            proof {
                assert(bucket@.take(bucket@.len() as int) =~= bucket@);
            }
            r.push((size, copy));
            k += 1;
        }
        r
    }

    /// Records a digest under a size.  Afterwards the pair is present,
    /// and nothing else changed: exactly the pairs recorded before plus
    /// this one are recorded, and exactly the sizes known before plus
    /// this one are known.
    pub fn insert(&mut self, size: u64, hash: String)
        requires
            old(self).wf(),
        ensures
            final(self).wf(),
            final(self).spec_contains(size, hash@),
            forall|s2: u64, h2: Seq<char>|
                #[trigger] final(self).spec_contains(s2, h2) <==> old(self).spec_contains(s2, h2)
                    || (s2 == size && h2 == hash@),
            forall|s2: u64|
                #[trigger] final(self).spec_has_size(s2) <==> old(self).spec_has_size(s2) || s2
                    == size,
            !final(self).spec_is_empty(),
    {
        let ghost pre = *self;
        let mut k: usize = 0;
        while k < self.entries.len()
            invariant
                *self == pre,
                pre == *old(self),
                pre.wf(),
                k <= self.entries@.len(),
                forall|m: int| 0 <= m < k ==> (#[trigger] self.entries@[m]).0 != size,
            decreases self.entries.len() - k,
        {
            if self.entries[k].0 == size {
                let ghost oldbucket = self.entries@[k as int].1@;
                let entry = &mut self.entries[k];
                entry.1.push(hash);
                proof {
                    assert(self.entries@[k as int].0 == size);
                    assert(self.entries@[k as int].1@ =~= oldbucket.push(
                        self.entries@[k as int].1@.last(),
                    ));
                    assert(forall|m: int|
                        0 <= m < self.entries@.len() && m != k ==> self.entries@[m]
                            == pre.entries@[m]);
                    lemma_insert_existing(pre, *self, k as int, size, hash@);
                }
                return;
            }
            k += 1;
        }
        let mut bucket: Vec<String> = Vec::new();
        bucket.push(hash);
        self.entries.push((size, bucket));
        proof {
            let n = self.entries@.len() - 1;
            assert(self.entries@[n].0 == size);
            assert(self.entries@[n].1@.len() == 1);
            assert((self.entries@[n].1@[0])@ == hash@);
            assert(forall|m: int| 0 <= m < n ==> self.entries@[m] == pre.entries@[m]);
            lemma_insert_fresh(pre, *self, size, hash@);
        }
    }
}

/// A recorded digest always stands under a known size.
pub proof fn lemma_contains_implies_size(table: HashTable, size: u64, hash: Seq<char>)
    requires
        table.spec_contains(size, hash),
    ensures
        table.spec_has_size(size),
{
    let (m, j) = choose|m: int, j: int|
        0 <= m < table.entries@.len() && (#[trigger] table.entries@[m]).0 == size && 0 <= j
            < table.entries@[m].1@.len() && (#[trigger] table.entries@[m].1@[j])@ == hash;
    assert(table.entries@[m].0 == size);
}

/// Pushing a digest onto an existing bucket records exactly that pair.
proof fn lemma_insert_existing(pre: HashTable, post: HashTable, k: int, size: u64, hash: Seq<char>)
    requires
        pre.wf(),
        0 <= k < pre.entries@.len(),
        post.entries@.len() == pre.entries@.len(),
        pre.entries@[k].0 == size,
        forall|m: int| 0 <= m < k ==> (#[trigger] pre.entries@[m]).0 != size,
        post.entries@[k].0 == size,
        post.entries@[k].1@ == pre.entries@[k].1@.push(post.entries@[k].1@.last()),
        (post.entries@[k].1@.last())@ == hash,
        forall|m: int|
            0 <= m < post.entries@.len() && m != k ==> #[trigger] post.entries@[m]
                == pre.entries@[m],
    ensures
        post.wf(),
        post.spec_contains(size, hash),
        forall|s2: u64, h2: Seq<char>|
            #[trigger] post.spec_contains(s2, h2) <==> pre.spec_contains(s2, h2) || (s2 == size
                && h2 == hash),
        forall|s2: u64| #[trigger] post.spec_has_size(s2) <==> pre.spec_has_size(s2) || s2 == size,
        !post.spec_is_empty(),
{
    assert(post.wf()) by {
        assert(forall|m: int|
            0 <= m < post.entries@.len() ==> (#[trigger] post.entries@[m]).0
                == pre.entries@[m].0);
    }
    let blen = post.entries@[k].1@.len();
    assert((post.entries@[k].1@[blen - 1])@ == hash);
    assert(post.spec_contains(size, hash));
    assert forall|s2: u64, h2: Seq<char>| #[trigger]
        post.spec_contains(s2, h2) implies pre.spec_contains(s2, h2) || (s2 == size && h2
        == hash) by {
        let (m, j) = choose|m: int, j: int|
            0 <= m < post.entries@.len() && (#[trigger] post.entries@[m]).0 == s2 && 0 <= j
                < post.entries@[m].1@.len() && (#[trigger] post.entries@[m].1@[j])@ == h2;
        if m == k {
            if j < blen - 1 {
                assert(pre.entries@[k].1@[j] == post.entries@[k].1@[j]);
                assert(pre.spec_contains(s2, h2));
            }
        } else {
            assert(pre.entries@[m] == post.entries@[m]);
            assert(pre.spec_contains(s2, h2));
        }
    }
    assert forall|s2: u64, h2: Seq<char>|
        pre.spec_contains(s2, h2) || (s2 == size && h2 == hash) implies #[trigger] post.spec_contains(
        s2,
        h2,
    ) by {
        if pre.spec_contains(s2, h2) {
            let (m, j) = choose|m: int, j: int|
                0 <= m < pre.entries@.len() && (#[trigger] pre.entries@[m]).0 == s2 && 0 <= j
                    < pre.entries@[m].1@.len() && (#[trigger] pre.entries@[m].1@[j])@ == h2;
            if m == k {
                assert(post.entries@[k].1@[j] == pre.entries@[k].1@[j]);
            } else {
                assert(post.entries@[m] == pre.entries@[m]);
            }
        }
    }
    assert forall|s2: u64| #[trigger]
        post.spec_has_size(s2) implies pre.spec_has_size(s2) || s2 == size by {
        let m = choose|m: int|
            0 <= m < post.entries@.len() && (#[trigger] post.entries@[m]).0 == s2;
        assert(pre.entries@[m].0 == s2);
    }
    assert forall|s2: u64|
        pre.spec_has_size(s2) || s2 == size implies #[trigger] post.spec_has_size(s2) by {
        if pre.spec_has_size(s2) {
            let m = choose|m: int|
                0 <= m < pre.entries@.len() && (#[trigger] pre.entries@[m]).0 == s2;
            assert(post.entries@[m].0 == s2);
        } else {
            assert(post.entries@[k].0 == size);
        }
    }
}

/// Appending a fresh one-digest bucket records exactly that pair.
proof fn lemma_insert_fresh(pre: HashTable, post: HashTable, size: u64, hash: Seq<char>)
    requires
        pre.wf(),
        forall|m: int| 0 <= m < pre.entries@.len() ==> (#[trigger] pre.entries@[m]).0 != size,
        post.entries@.len() == pre.entries@.len() + 1,
        post.entries@[post.entries@.len() - 1].0 == size,
        post.entries@[post.entries@.len() - 1].1@.len() == 1,
        (post.entries@[post.entries@.len() - 1].1@[0])@ == hash,
        forall|m: int|
            0 <= m < pre.entries@.len() ==> #[trigger] post.entries@[m] == pre.entries@[m],
    ensures
        post.wf(),
        post.spec_contains(size, hash),
        forall|s2: u64, h2: Seq<char>|
            #[trigger] post.spec_contains(s2, h2) <==> pre.spec_contains(s2, h2) || (s2 == size
                && h2 == hash),
        forall|s2: u64| #[trigger] post.spec_has_size(s2) <==> pre.spec_has_size(s2) || s2 == size,
        !post.spec_is_empty(),
{
    let n = post.entries@.len() - 1;
    assert(post.wf()) by {
        assert forall|a: int, b: int|
            0 <= a < b < post.entries@.len() implies (#[trigger] post.entries@[a]).0
            != (#[trigger] post.entries@[b]).0 by {
            if b < n {
                assert(post.entries@[a] == pre.entries@[a]);
                assert(post.entries@[b] == pre.entries@[b]);
            } else {
                assert(post.entries@[a] == pre.entries@[a]);
            }
        }
    }
    assert(post.spec_contains(size, hash)) by {
        assert((post.entries@[n].1@[0])@ == hash);
    }
    assert forall|s2: u64, h2: Seq<char>| #[trigger]
        post.spec_contains(s2, h2) implies pre.spec_contains(s2, h2) || (s2 == size && h2
        == hash) by {
        let (m, j) = choose|m: int, j: int|
            0 <= m < post.entries@.len() && (#[trigger] post.entries@[m]).0 == s2 && 0 <= j
                < post.entries@[m].1@.len() && (#[trigger] post.entries@[m].1@[j])@ == h2;
        if m < n {
            assert(pre.entries@[m] == post.entries@[m]);
            assert(pre.spec_contains(s2, h2));
        }
    }
    assert forall|s2: u64, h2: Seq<char>|
        pre.spec_contains(s2, h2) || (s2 == size && h2 == hash) implies #[trigger] post.spec_contains(
        s2,
        h2,
    ) by {
        if pre.spec_contains(s2, h2) {
            let (m, j) = choose|m: int, j: int|
                0 <= m < pre.entries@.len() && (#[trigger] pre.entries@[m]).0 == s2 && 0 <= j
                    < pre.entries@[m].1@.len() && (#[trigger] pre.entries@[m].1@[j])@ == h2;
            assert(post.entries@[m] == pre.entries@[m]);
        } else {
            assert((post.entries@[n].1@[0])@ == hash);
        }
    }
    assert forall|s2: u64| #[trigger]
        post.spec_has_size(s2) implies pre.spec_has_size(s2) || s2 == size by {
        let m = choose|m: int|
            0 <= m < post.entries@.len() && (#[trigger] post.entries@[m]).0 == s2;
        if m < n {
            assert(pre.entries@[m].0 == s2);
        }
    }
    assert forall|s2: u64|
        pre.spec_has_size(s2) || s2 == size implies #[trigger] post.spec_has_size(s2) by {
        if pre.spec_has_size(s2) {
            let m = choose|m: int|
                0 <= m < pre.entries@.len() && (#[trigger] pre.entries@[m]).0 == s2;
            assert(post.entries@[m].0 == s2);
        } else {
            assert(post.entries@[n].0 == size);
        }
    }
}

} // verus!
