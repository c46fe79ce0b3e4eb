//! Scanned file records and their orderings.
//!
//! Walking directories is the surrounding binary's job; the verified side
//! owns the record types and the sort the pipeline relies on (videos are
//! processed smallest first).

use vstd::prelude::*;
use vstd::multiset::Multiset;

verus! {

/// One file found by a scan.
#[derive(Debug, Clone)]
pub struct FileInfo {
    pub path: String,
    pub size: u64,
}

/// One video file found by a scan; the duration is known only when the
/// metadata probe succeeded.
#[derive(Debug, Clone)]
pub struct VideoFileInfo {
    pub path: String,
    pub size: u64,
    pub duration_ms: Option<u64>,
}

/// Nondecreasing by file size.
pub open spec fn sorted_by_size(s: Seq<VideoFileInfo>) -> bool {
    forall|i: int, j: int| 0 <= i < j < s.len() ==> (#[trigger] s[i]).size <= (#[trigger] s[j]).size
}

/// Sorts video records by file size, smallest first.  Only the order
/// changes: the records themselves are kept.
pub fn sort_videos_by_size(videos: Vec<VideoFileInfo>) -> (r: Vec<VideoFileInfo>)
    ensures
        sorted_by_size(r@),
        r@.to_multiset() == videos@.to_multiset(),
        r@.len() == videos@.len(),
{
    proof {
        broadcast use vstd::seq_lib::group_to_multiset_ensures;

    }
    let mut r: Vec<VideoFileInfo> = Vec::new();
    let mut rest = videos;
    let ghost all = rest@;
    proof {
        assert(r@ + rest@ =~= rest@);
        assert(r@.to_multiset().add(rest@.to_multiset()) =~= all.to_multiset()) by {
            assert(r@.to_multiset().len() == 0);
            assert(r@.to_multiset() =~= Multiset::empty());
        }
    }
    while rest.len() > 0
        invariant
            sorted_by_size(r@),
            r@.to_multiset().add(rest@.to_multiset()) == all.to_multiset(),
            r@.len() + rest@.len() == all.len(),
        decreases rest.len(),
    {
        let ghost pre_rest = rest@;
        let x = rest.pop().unwrap();
        proof {
            broadcast use vstd::seq_lib::group_to_multiset_ensures;

            assert(pre_rest =~= rest@.push(x));
            assert(pre_rest.to_multiset() =~= rest@.to_multiset().insert(x));
        }
        let mut j: usize = 0;
        while j < r.len() && r[j].size <= x.size
            invariant
                j <= r@.len(),
                forall|k: int| 0 <= k < j ==> (#[trigger] r@[k]).size <= x.size,
                sorted_by_size(r@),
            decreases r.len() - j,
        {
            j += 1;
        }
        let ghost pre_r = r@;
        r.insert(j, x);
        proof {
            assert(r@ =~= pre_r.insert(j as int, x));
            assert(sorted_by_size(r@)) by {
                assert forall|a: int, b: int|
                    0 <= a < b < r@.len() implies (#[trigger] r@[a]).size
                    <= (#[trigger] r@[b]).size by {
                    if b < j {
                    } else if a > j {
                    }
                }
            }
            assert(r@.to_multiset() =~= pre_r.to_multiset().insert(x)) by {
                lemma_insert_multiset(pre_r, j as int, x);
            }
            assert(r@.to_multiset().add(rest@.to_multiset()) =~= all.to_multiset());
        }
    }
    proof {
        broadcast use vstd::seq_lib::group_to_multiset_ensures;

        assert(rest@.to_multiset().len() == 0);
        assert(rest@.to_multiset() =~= Multiset::empty());
        assert(r@.to_multiset() =~= all.to_multiset());
    }
    r
}

/// A video with its probed duration, ready for duration ordering.
#[derive(Debug, Clone)]
pub struct VideoWithDuration {
    pub path: String,
    pub duration_ms: u64,
    pub size: u64,
}

/// Nondecreasing by duration.
pub open spec fn sorted_by_duration(s: Seq<VideoWithDuration>) -> bool {
    forall|i: int, j: int|
        0 <= i < j < s.len() ==> (#[trigger] s[i]).duration_ms <= (#[trigger] s[j]).duration_ms
}

/// The duration ordering of probed videos.
pub struct VideoSorter {
}

impl core::default::Default for VideoSorter {
    /// The same as a new sorter.
    fn default() -> (r: VideoSorter)
        ensures
            true,
    {
        VideoSorter {  }
    }
}

impl VideoSorter {
    /// A new sorter.
    pub fn new() -> (r: VideoSorter)
        ensures
            true,
    {
        VideoSorter {  }
    }

    /// Sorts probed videos by duration, shortest first.  Only the order
    /// changes: the records themselves are kept.
    pub fn sort_by_duration(&self, videos: Vec<VideoWithDuration>) -> (r: Vec<VideoWithDuration>)
        ensures
            sorted_by_duration(r@),
            r@.to_multiset() == videos@.to_multiset(),
            r@.len() == videos@.len(),
    {
        proof {
            broadcast use vstd::seq_lib::group_to_multiset_ensures;

        }
        let mut r: Vec<VideoWithDuration> = Vec::new();
        let mut rest = videos;
        let ghost all = rest@;
        proof {
            assert(r@.to_multiset().add(rest@.to_multiset()) =~= all.to_multiset()) by {
                assert(r@.to_multiset().len() == 0);
                assert(r@.to_multiset() =~= Multiset::empty());
            }
        }
        while rest.len() > 0
            invariant
                sorted_by_duration(r@),
                r@.to_multiset().add(rest@.to_multiset()) == all.to_multiset(),
                r@.len() + rest@.len() == all.len(),
            decreases rest.len(),
        {
            let ghost pre_rest = rest@;
            let x = rest.pop().unwrap();
            proof {
                broadcast use vstd::seq_lib::group_to_multiset_ensures;

                assert(pre_rest =~= rest@.push(x));
                assert(pre_rest.to_multiset() =~= rest@.to_multiset().insert(x));
            }
            let mut j: usize = 0;
            while j < r.len() && r[j].duration_ms <= x.duration_ms
                invariant
                    j <= r@.len(),
                    forall|k: int| 0 <= k < j ==> (#[trigger] r@[k]).duration_ms <= x.duration_ms,
                    sorted_by_duration(r@),
                decreases r.len() - j,
            {
                j += 1;
            }
            let ghost pre_r = r@;
            r.insert(j, x);
            proof {
                assert(r@ =~= pre_r.insert(j as int, x));
                assert(sorted_by_duration(r@)) by {
                    assert forall|a: int, b: int|
                        0 <= a < b < r@.len() implies (#[trigger] r@[a]).duration_ms
                        <= (#[trigger] r@[b]).duration_ms by {
                        if b < j {
                        } else if a > j {
                        }
                    }
                }
                assert(r@.to_multiset() =~= pre_r.to_multiset().insert(x)) by {
                    lemma_insert_multiset_duration(pre_r, j as int, x);
                }
                assert(r@.to_multiset().add(rest@.to_multiset()) =~= all.to_multiset());
            }
        }
        proof {
            broadcast use vstd::seq_lib::group_to_multiset_ensures;

            assert(rest@.to_multiset().len() == 0);
            assert(rest@.to_multiset() =~= Multiset::empty());
            assert(r@.to_multiset() =~= all.to_multiset());
        }
        r
    }
}

/// Inserting an element anywhere inserts it into the multiset.
proof fn lemma_insert_multiset_duration(s: Seq<VideoWithDuration>, j: int, x: VideoWithDuration)
    requires
        0 <= j <= s.len(),
    ensures
        s.insert(j, x).to_multiset() == s.to_multiset().insert(x),
{
    broadcast use vstd::seq_lib::group_to_multiset_ensures;

    let t = s.insert(j, x);
    assert(t =~= s.take(j) + seq![x] + s.skip(j));
    assert(s =~= s.take(j) + s.skip(j));
    vstd::seq_lib::lemma_multiset_commutative(s.take(j) + seq![x], s.skip(j));
    vstd::seq_lib::lemma_multiset_commutative(s.take(j), s.skip(j));
    vstd::seq_lib::lemma_multiset_commutative(s.take(j), seq![x]);
    assert(seq![x].to_multiset() =~= Multiset::empty().insert(x)) by {
        assert(seq![x] =~= Seq::empty().push(x));
        assert(Seq::<VideoWithDuration>::empty().push(x).to_multiset() =~= Seq::<
            VideoWithDuration,
        >::empty().to_multiset().insert(x));
    }
    assert(t.to_multiset() =~= s.to_multiset().insert(x));
}

/// Inserting an element anywhere inserts it into the multiset.
proof fn lemma_insert_multiset(s: Seq<VideoFileInfo>, j: int, x: VideoFileInfo)
    requires
        0 <= j <= s.len(),
    ensures
        s.insert(j, x).to_multiset() == s.to_multiset().insert(x),
{
    broadcast use vstd::seq_lib::group_to_multiset_ensures;

    let t = s.insert(j, x);
    assert(t =~= s.take(j) + seq![x] + s.skip(j));
    assert(s =~= s.take(j) + s.skip(j));
    vstd::seq_lib::lemma_multiset_commutative(s.take(j) + seq![x], s.skip(j));
    vstd::seq_lib::lemma_multiset_commutative(s.take(j), s.skip(j));
    vstd::seq_lib::lemma_multiset_commutative(s.take(j), seq![x]);
    assert(t.to_multiset() =~= (s.take(j) + seq![x]).to_multiset().add(s.skip(j).to_multiset()));
    assert((s.take(j) + seq![x]).to_multiset() =~= s.take(j).to_multiset().add(
        seq![x].to_multiset(),
    ));
    assert(seq![x].to_multiset() =~= Multiset::empty().insert(x)) by {
        assert(seq![x] =~= Seq::empty().push(x));
        assert(Seq::<VideoFileInfo>::empty().push(x).to_multiset() =~= Seq::<
            VideoFileInfo,
        >::empty().to_multiset().insert(x));
    }
    assert(t.to_multiset() =~= s.to_multiset().insert(x));
}

} // verus!
