//! Scene-aware selection of representative sample timestamps.
//!
//! Raw scene-change points are turned into exactly `count` sample
//! timestamps: the points (plus the video boundaries) delimit segments,
//! degenerate segments are dropped, the segment list is evenly subsampled
//! or greedily bisected until it has exactly `count` members, and each
//! segment then contributes one timestamp a little after its start,
//! clear of the cut boundaries.
//!
//! All positions are in milliseconds.  The executable functions return
//! exactly the sequences described by the `spec_` functions of this
//! module, so every step of the selection is pinned down.

use vstd::prelude::*;

use crate::scene_detector::SceneChange;

verus! {

/// Two candidate cut points closer than this are treated as one.
pub const DEDUP_WINDOW_MS: u64 = 100;

/// Segments shorter than this are dropped before subdivision.
pub const MIN_SEGMENT_MS: u64 = 500;

/// A representative timestamp keeps this distance from its segment's ends.
pub const EDGE_GUARD_MS: u64 = 500;

/// Selected timestamps are clamped below `duration` minus this.
pub const TAIL_GUARD_MS: u64 = 100;

/// Offset of the representative timestamp into its segment, in percent.
pub const REPRESENTATIVE_OFFSET_PERCENT: u64 = 35;

/// Nondecreasing order.
pub open spec fn sorted_le(s: Seq<u64>) -> bool {
    forall|i: int, j: int| 0 <= i < j < s.len() ==> s[i] <= s[j]
}

/// `x` placed after every element that does not exceed it.
pub open spec fn spec_insert_sorted(s: Seq<u64>, x: u64) -> Seq<u64>
    decreases s.len(),
{
    if s.len() == 0 {
        seq![x]
    } else if x < s[0] {
        seq![x] + s
    } else {
        seq![s[0]] + spec_insert_sorted(s.drop_first(), x)
    }
}

/// Insertion sort of a sequence, the canonical nondecreasing rearrangement.
pub open spec fn spec_sort(s: Seq<u64>) -> Seq<u64>
    decreases s.len(),
{
    if s.len() == 0 {
        Seq::empty()
    } else {
        spec_insert_sorted(spec_sort(s.drop_first()), s[0])
    }
}

/// Whether two positions fall within the de-duplication window.
pub open spec fn spec_close(a: u64, b: u64) -> bool {
    (if a >= b {
        a - b
    } else {
        b - a
    }) < DEDUP_WINDOW_MS
}

/// The tail of de-duplication: elements within the window of the last
/// kept value are dropped; each kept value becomes the new reference.
pub open spec fn spec_dedup_tail(s: Seq<u64>, last: u64) -> Seq<u64>
    decreases s.len(),
{
    if s.len() == 0 {
        Seq::empty()
    } else if spec_close(s[0], last) {
        spec_dedup_tail(s.drop_first(), last)
    } else {
        seq![s[0]] + spec_dedup_tail(s.drop_first(), s[0])
    }
}

/// De-duplication at the window's resolution: the first element is kept,
/// and every later element closer than the window to the last kept one
/// is dropped.
pub open spec fn spec_dedup(s: Seq<u64>) -> Seq<u64> {
    if s.len() == 0 {
        Seq::empty()
    } else {
        seq![s[0]] + spec_dedup_tail(s.drop_first(), s[0])
    }
}

/// The segments between consecutive points, keeping only those at least
/// `MIN_SEGMENT_MS` long.
pub open spec fn spec_segments(points: Seq<u64>) -> Seq<(u64, u64)>
    decreases points.len(),
{
    if points.len() < 2 {
        Seq::empty()
    } else if points[1] - points[0] >= MIN_SEGMENT_MS {
        seq![(points[0], points[1])] + spec_segments(points.drop_first())
    } else {
        spec_segments(points.drop_first())
    }
}

/// The segment list built from the video boundaries and the scene points:
/// sorted, de-duplicated, degenerate segments dropped.
pub open spec fn spec_build_segments(duration_ms: u64, scene_ts: Seq<u64>) -> Seq<(u64, u64)> {
    spec_segments(spec_dedup(spec_sort(seq![0u64] + scene_ts + seq![duration_ms])))
}

/// Inserting at the position that the scan finds is the sorted insert.
proof fn lemma_insert_sorted_at(s: Seq<u64>, x: u64, j: int)
    requires
        0 <= j <= s.len(),
        forall|k: int| 0 <= k < j ==> s[k] <= x,
        j < s.len() ==> x < s[j],
    ensures
        spec_insert_sorted(s, x) =~= s.insert(j, x),
    decreases s.len(),
{
    if s.len() == 0 {
    } else if x < s[0] {
        assert(j == 0);
    } else {
        assert(s[0] <= x);
        assert(j != 0);
        lemma_insert_sorted_at(s.drop_first(), x, j - 1);
        assert(spec_insert_sorted(s, x) =~= seq![s[0]] + s.drop_first().insert(j - 1, x));
        assert(seq![s[0]] + s.drop_first().insert(j - 1, x) =~= s.insert(j, x));
    }
}

/// Inserts `x` into a nondecreasing vector, after its equals.
pub(crate) fn insert_sorted(v: &mut Vec<u64>, x: u64)
    requires
        sorted_le(old(v)@),
    ensures
        final(v)@ == spec_insert_sorted(old(v)@, x),
        sorted_le(final(v)@),
{
    let mut j: usize = 0;
    while j < v.len() && v[j] <= x
        invariant
            0 <= j <= v.len(),
            forall|k: int| 0 <= k < j ==> v@[k] <= x,
            sorted_le(v@),
        decreases v.len() - j,
    {
        j += 1;
    }
    proof {
        lemma_insert_sorted_at(v@, x, j as int);
    }
    let ghost s0 = v@;
    v.insert(j, x);
    assert(v@ =~= s0.insert(j as int, x));
    assert(sorted_le(v@)) by {
        assert forall|a: int, b: int| 0 <= a < b < v@.len() implies v@[a] <= v@[b] by {
            if b < j {
            } else if a > j {
            }
        }
    }
}

/// Sorts the positions into nondecreasing order.
pub(crate) fn sort_points(v: &Vec<u64>) -> (r: Vec<u64>)
    ensures
        r@ == spec_sort(v@),
        sorted_le(r@),
{
    let mut r: Vec<u64> = Vec::new();
    let mut i: usize = v.len();
    while i > 0
        invariant
            i <= v.len(),
            r@ == spec_sort(v@.skip(i as int)),
            sorted_le(r@),
        decreases i,
    {
        i -= 1;
        insert_sorted(&mut r, v[i]);
        proof {
            let tail = v@.skip(i as int);
            assert(tail.len() > 0);
            assert(tail[0] == v@[i as int]);
            assert(tail.drop_first() =~= v@.skip(i as int + 1));
        }
    }
    proof {
        assert(v@.skip(0) =~= v@);
    }
    r
}

/// Drops positions that fall within the de-duplication window of the
/// last kept position.
pub(crate) fn dedup_points(v: &Vec<u64>) -> (r: Vec<u64>)
    requires
        sorted_le(v@),
    ensures
        r@ == spec_dedup(v@),
        sorted_le(r@),
{
    let mut r: Vec<u64> = Vec::new();
    if v.len() == 0 {
        return r;
    }
    let mut last: u64 = v[0];
    r.push(last);
    let mut i: usize = 1;
    while i < v.len()
        invariant
            1 <= i <= v.len(),
            sorted_le(v@),
            sorted_le(r@),
            spec_dedup(v@) == r@ + spec_dedup_tail(v@.skip(i as int), last),
            forall|m: int| 0 <= m < r@.len() ==> r@[m] <= last,
            forall|j: int| i <= j < v@.len() ==> last <= v@[j],
        decreases v.len() - i,
    {
        let x = v[i];
        let ghost tail = v@.skip(i as int);
        proof {
            assert(tail.len() > 0);
            assert(tail[0] == v@[i as int]);
            assert(tail.drop_first() =~= v@.skip(i as int + 1));
        }
        let near = if x >= last {
            x - last < DEDUP_WINDOW_MS
        } else {
            last - x < DEDUP_WINDOW_MS
        };
        if !near {
            r.push(x);
            proof {
                assert(spec_dedup_tail(tail, last) =~= seq![x] + spec_dedup_tail(
                    v@.skip(i as int + 1),
                    x,
                ));
            }
            last = x;
        }
        i += 1;
    }
    proof {
        assert(v@.skip(v@.len() as int).len() == 0);
        assert(r@ + spec_dedup_tail(v@.skip(v@.len() as int), last) =~= r@);
    }
    r
}

/// Builds the retained segments between consecutive sorted points.
fn segments_of_points(points: &Vec<u64>) -> (r: Vec<(u64, u64)>)
    requires
        sorted_le(points@),
    ensures
        r@ == spec_segments(points@),
{
    let mut r: Vec<(u64, u64)> = Vec::new();
    if points.len() < 2 {
        proof {
            assert(spec_segments(points@) =~= Seq::<(u64, u64)>::empty());
        }
        return r;
    }
    let mut i: usize = 0;
    proof {
        assert(points@.skip(0) =~= points@);
        assert(r@ + spec_segments(points@) =~= spec_segments(points@));
    }
    while i + 1 < points.len()
        invariant
            0 <= i,
            i + 1 <= points@.len(),
            sorted_le(points@),
            spec_segments(points@) == r@ + spec_segments(points@.skip(i as int)),
        decreases points.len() - i,
    {
        let a = points[i];
        let b = points[i + 1];
        let ghost tail = points@.skip(i as int);
        proof {
            assert(tail.len() >= 2);
            assert(tail[0] == points@[i as int]);
            assert(tail[1] == points@[i as int + 1]);
            assert(tail.drop_first() =~= points@.skip(i as int + 1));
        }
        assert(a <= b);
        if b - a >= MIN_SEGMENT_MS {
            r.push((a, b));
            proof {
                assert(spec_segments(tail) =~= seq![(a, b)] + spec_segments(
                    points@.skip(i as int + 1),
                ));
            }
        }
        i += 1;
    }
    proof {
        assert(points@.skip(i as int).len() < 2);
        assert(spec_segments(points@.skip(i as int)) =~= Seq::<(u64, u64)>::empty());
        assert(r@ + spec_segments(points@.skip(i as int)) =~= r@);
    }
    r
}

/// Builds the segment list for a video: boundaries and scene points,
/// sorted and de-duplicated, with degenerate segments dropped.
pub fn build_segments(duration_ms: u64, scene_changes: &[SceneChange]) -> (r: Vec<(u64, u64)>)
    ensures
        r@ == spec_build_segments(
            duration_ms,
            scene_changes@.map_values(|sc: SceneChange| sc.timestamp_ms),
        ),
{
    let ghost ts = scene_changes@.map_values(|sc: SceneChange| sc.timestamp_ms);
    let mut points: Vec<u64> = Vec::new();
    points.push(0);
    let mut i: usize = 0;
    while i < scene_changes.len()
        invariant
            i <= scene_changes@.len(),
            ts == scene_changes@.map_values(|sc: SceneChange| sc.timestamp_ms),
            points@ == seq![0u64] + ts.take(i as int),
        decreases scene_changes.len() - i,
    {
        points.push(scene_changes[i].timestamp_ms);
        proof {
            assert(points@ =~= seq![0u64] + ts.take(i as int + 1));
        }
        i += 1;
    }
    points.push(duration_ms);
    proof {
        assert(ts.take(ts.len() as int) =~= ts);
        assert(points@ =~= seq![0u64] + ts + seq![duration_ms]);
    }
    let sorted = sort_points(&points);
    let deduped = dedup_points(&sorted);
    segments_of_points(&deduped)
}

/// Sorted insertion only rearranges: the multiset of elements is kept.
proof fn lemma_insert_sorted_multiset(s: Seq<u64>, x: u64)
    ensures
        spec_insert_sorted(s, x).to_multiset() == s.to_multiset().insert(x),
    decreases s.len(),
{
    broadcast use vstd::seq_lib::group_to_multiset_ensures;

    if s.len() == 0 {
        assert(spec_insert_sorted(s, x) =~= Seq::empty().push(x));
        assert(Seq::<u64>::empty().push(x).to_multiset() =~= s.to_multiset().insert(x));
    } else if x < s[0] {
        assert(seq![x] + s =~= (seq![x] + s.drop_last()).push(s.last()));
        lemma_insert_sorted_multiset(s.drop_last(), x);
        assert(s =~= s.drop_last().push(s.last()));
        assert(spec_insert_sorted(s.drop_last(), x) =~= seq![x] + s.drop_last()) by {
            if s.len() > 1 {
                assert(s.drop_last()[0] == s[0]);
            }
            lemma_insert_sorted_at_zero(s.drop_last(), x);
        }
        assert((seq![x] + s.drop_last()).to_multiset() == s.drop_last().to_multiset().insert(x));
        assert((seq![x] + s).to_multiset() =~= s.to_multiset().insert(x));
    } else {
        lemma_insert_sorted_multiset(s.drop_first(), x);
        let inner = spec_insert_sorted(s.drop_first(), x);
        assert(spec_insert_sorted(s, x) =~= seq![s[0]] + inner);
        lemma_cons_multiset(s[0], inner);
        lemma_cons_multiset(s[0], s.drop_first());
        assert(s =~= seq![s[0]] + s.drop_first());
        assert((seq![s[0]] + inner).to_multiset() =~= s.to_multiset().insert(x));
    }
}

/// Inserting before everything is prepending.
proof fn lemma_insert_sorted_at_zero(s: Seq<u64>, x: u64)
    requires
        s.len() == 0 || x < s[0],
    ensures
        spec_insert_sorted(s, x) =~= seq![x] + s,
{
    if s.len() == 0 {
    }
}

/// Prepending one element inserts it into the multiset.
proof fn lemma_cons_multiset(x: u64, s: Seq<u64>)
    ensures
        (seq![x] + s).to_multiset() == s.to_multiset().insert(x),
    decreases s.len(),
{
    broadcast use vstd::seq_lib::group_to_multiset_ensures;

    if s.len() == 0 {
        assert(seq![x] + s =~= Seq::empty().push(x));
        assert(Seq::<u64>::empty().push(x).to_multiset() =~= s.to_multiset().insert(x));
    } else {
        lemma_cons_multiset(x, s.drop_last());
        assert(seq![x] + s =~= (seq![x] + s.drop_last()).push(s.last()));
        assert(s =~= s.drop_last().push(s.last()));
        assert((seq![x] + s).to_multiset() =~= s.to_multiset().insert(x));
    }
}

/// Sorting only rearranges: the multiset of elements is kept.
pub proof fn lemma_sort_multiset(s: Seq<u64>)
    ensures
        spec_sort(s).to_multiset() == s.to_multiset(),
        spec_sort(s).len() == s.len(),
        forall|x: u64| spec_sort(s).contains(x) <==> s.contains(x),
    decreases s.len(),
{
    broadcast use vstd::seq_lib::group_to_multiset_ensures;

    if s.len() == 0 {
        assert(spec_sort(s).to_multiset() =~= s.to_multiset());
    } else {
        lemma_sort_multiset(s.drop_first());
        lemma_insert_sorted_multiset(spec_sort(s.drop_first()), s[0]);
        lemma_cons_multiset(s[0], s.drop_first());
        assert(s =~= seq![s[0]] + s.drop_first());
        assert(spec_sort(s).to_multiset() =~= s.to_multiset());
    }
    assert(spec_sort(s).to_multiset().len() == s.to_multiset().len());
    assert forall|x: u64| spec_sort(s).contains(x) <==> s.contains(x) by {
        assert(spec_sort(s).contains(x) <==> spec_sort(s).to_multiset().count(x) > 0);
        assert(s.contains(x) <==> s.to_multiset().count(x) > 0);
    }
}

/// The sort of anything is nondecreasing.
pub proof fn lemma_sort_sorted(s: Seq<u64>)
    ensures
        sorted_le(spec_sort(s)),
    decreases s.len(),
{
    if s.len() > 0 {
        lemma_sort_sorted(s.drop_first());
        lemma_insert_sorted_sorted(spec_sort(s.drop_first()), s[0]);
    }
}

/// Sorted insertion keeps a sequence nondecreasing.
proof fn lemma_insert_sorted_sorted(s: Seq<u64>, x: u64)
    requires
        sorted_le(s),
    ensures
        sorted_le(spec_insert_sorted(s, x)),
    decreases s.len(),
{
    if s.len() == 0 {
    } else if x < s[0] {
    } else {
        assert(s.drop_first().len() == s.len() - 1);
        assert(sorted_le(s.drop_first())) by {
            assert(forall|i: int, j: int|
                0 <= i < j < s.drop_first().len() ==> s.drop_first()[i] == s[i + 1]
                    && s.drop_first()[j] == s[j + 1]);
        }
        lemma_insert_sorted_sorted(s.drop_first(), x);
        let inner = spec_insert_sorted(s.drop_first(), x);
        lemma_insert_sorted_members(s.drop_first(), x);
        assert forall|a: int, b: int|
            0 <= a < b < spec_insert_sorted(s, x).len() implies spec_insert_sorted(s, x)[a]
            <= spec_insert_sorted(s, x)[b] by {
            let r = spec_insert_sorted(s, x);
            assert(r =~= seq![s[0]] + inner);
            if a == 0 {
                assert(r[b] == inner[b - 1]);
                assert(inner.contains(inner[b - 1]));
            } else {
                assert(r[a] == inner[a - 1] && r[b] == inner[b - 1]);
            }
        }
    }
}

/// Every element of a sorted insertion is the new one or an old one, and
/// old ones below the head stay absent.
proof fn lemma_insert_sorted_members(s: Seq<u64>, x: u64)
    ensures
        forall|k: int|
            0 <= k < spec_insert_sorted(s, x).len() ==> #[trigger] spec_insert_sorted(s, x)[k] == x
                || s.contains(spec_insert_sorted(s, x)[k]),
    decreases s.len(),
{
    if s.len() == 0 {
    } else if x < s[0] {
        assert forall|k: int|
            0 <= k < spec_insert_sorted(s, x).len() implies #[trigger] spec_insert_sorted(s, x)[k]
            == x || s.contains(spec_insert_sorted(s, x)[k]) by {
            if k > 0 {
                assert(spec_insert_sorted(s, x)[k] == s[k - 1]);
            }
        }
    } else {
        lemma_insert_sorted_members(s.drop_first(), x);
        let inner = spec_insert_sorted(s.drop_first(), x);
        assert forall|k: int|
            0 <= k < spec_insert_sorted(s, x).len() implies #[trigger] spec_insert_sorted(s, x)[k]
            == x || s.contains(spec_insert_sorted(s, x)[k]) by {
            let r = spec_insert_sorted(s, x);
            assert(r =~= seq![s[0]] + inner);
            if k == 0 {
                assert(s.contains(s[0]));
            } else {
                assert(r[k] == inner[k - 1]);
                if inner[k - 1] != x {
                    assert(s.drop_first().contains(inner[k - 1]));
                    let w = choose|w: int|
                        0 <= w < s.drop_first().len() && s.drop_first()[w] == inner[k - 1];
                    assert(s[w + 1] == inner[k - 1]);
                }
            }
        }
    }
}

/// De-duplication of a sorted tail: kept values are original values, all
/// at least the window above the reference and the window apart from one
/// another, and every original value lies within the window below the
/// last kept value (or the reference, when nothing is kept).
proof fn lemma_dedup_tail_props(s: Seq<u64>, last: u64)
    requires
        sorted_le(s),
        forall|i: int| 0 <= i < s.len() ==> last <= #[trigger] s[i],
    ensures
        ({
            let d = spec_dedup_tail(s, last);
            &&& forall|k: int| 0 <= k < d.len() ==> s.contains(#[trigger] d[k])
            &&& forall|k: int| 0 <= k < d.len() ==> last + DEDUP_WINDOW_MS <= #[trigger] d[k]
            &&& forall|a: int, b: int|
                0 <= a < b < d.len() ==> #[trigger] d[a] + DEDUP_WINDOW_MS <= #[trigger] d[b]
            &&& forall|i: int|
                0 <= i < s.len() ==> #[trigger] s[i] < (if d.len() > 0 {
                    d.last()
                } else {
                    last
                }) + DEDUP_WINDOW_MS
            &&& d.len() > 0 ==> d.last() <= s.last()
        }),
    decreases s.len(),
{
    let d = spec_dedup_tail(s, last);
    if s.len() == 0 {
    } else {
        let rest = s.drop_first();
        assert(sorted_le(rest)) by {
            assert(forall|i: int, j: int|
                0 <= i < j < rest.len() ==> rest[i] == s[i + 1] && rest[j] == s[j + 1]);
        }
        assert(forall|i: int| 0 <= i < rest.len() ==> #[trigger] rest[i] == s[i + 1]);
        if spec_close(s[0], last) {
            lemma_dedup_tail_props(rest, last);
            assert(d == spec_dedup_tail(rest, last));
            assert forall|k: int| 0 <= k < d.len() implies s.contains(#[trigger] d[k]) by {
                assert(rest.contains(d[k]));
                let w = choose|w: int| 0 <= w < rest.len() && rest[w] == d[k];
                assert(s[w + 1] == d[k]);
            }
            assert forall|i: int|
                0 <= i < s.len() implies #[trigger] s[i] < (if d.len() > 0 {
                d.last()
            } else {
                last
            }) + DEDUP_WINDOW_MS by {
                if i == 0 {
                    assert(s[0] < last + DEDUP_WINDOW_MS);
                    if d.len() > 0 {
                        assert(last + DEDUP_WINDOW_MS <= d.last());
                    }
                } else {
                    assert(rest[i - 1] == s[i]);
                }
            }
        } else {
            assert(s[0] >= last);
            assert(s[0] >= last + DEDUP_WINDOW_MS);
            lemma_dedup_tail_props(rest, s[0]);
            let dr = spec_dedup_tail(rest, s[0]);
            assert(d =~= seq![s[0]] + dr);
            assert(d[0] == s[0]);
            assert(s.contains(s[0]));
            assert forall|k: int| 0 <= k < d.len() implies s.contains(#[trigger] d[k]) by {
                if k > 0 {
                    assert(d[k] == dr[k - 1]);
                    assert(rest.contains(dr[k - 1]));
                    let w = choose|w: int| 0 <= w < rest.len() && rest[w] == dr[k - 1];
                    assert(s[w + 1] == dr[k - 1]);
                }
            }
            assert forall|a: int, b: int|
                0 <= a < b < d.len() implies #[trigger] d[a] + DEDUP_WINDOW_MS
                <= #[trigger] d[b] by {
                if a == 0 {
                    assert(d[b] == dr[b - 1]);
                } else {
                    assert(d[a] == dr[a - 1] && d[b] == dr[b - 1]);
                }
            }
            assert forall|i: int|
                0 <= i < s.len() implies #[trigger] s[i] < (if d.len() > 0 {
                d.last()
            } else {
                last
            }) + DEDUP_WINDOW_MS by {
                assert(d.last() == (if dr.len() > 0 {
                    dr.last()
                } else {
                    s[0]
                }));
                if i > 0 {
                    assert(rest[i - 1] == s[i]);
                }
            }
        }
    }
}

/// De-duplication of a sorted, nonempty list: the first value is kept,
/// kept values come from the list and stand the window apart, and every
/// original value lies within the window below the last kept one.
pub proof fn lemma_dedup_props(s: Seq<u64>)
    requires
        sorted_le(s),
        s.len() > 0,
    ensures
        ({
            let d = spec_dedup(s);
            &&& d.len() > 0
            &&& d[0] == s[0]
            &&& forall|k: int| 0 <= k < d.len() ==> s.contains(#[trigger] d[k])
            &&& forall|a: int, b: int|
                0 <= a < b < d.len() ==> #[trigger] d[a] + DEDUP_WINDOW_MS <= #[trigger] d[b]
            &&& forall|i: int| 0 <= i < s.len() ==> #[trigger] s[i] < d.last() + DEDUP_WINDOW_MS
            &&& d.last() <= s.last()
        }),
{
    let rest = s.drop_first();
    assert(sorted_le(rest)) by {
        assert(forall|i: int, j: int|
            0 <= i < j < rest.len() ==> rest[i] == s[i + 1] && rest[j] == s[j + 1]);
    }
    assert(forall|i: int| 0 <= i < rest.len() ==> #[trigger] rest[i] == s[i + 1]);
    lemma_dedup_tail_props(rest, s[0]);
    let dr = spec_dedup_tail(rest, s[0]);
    let d = spec_dedup(s);
    assert(d =~= seq![s[0]] + dr);
    assert(s.contains(s[0]));
    assert forall|k: int| 0 <= k < d.len() implies s.contains(#[trigger] d[k]) by {
        if k > 0 {
            assert(d[k] == dr[k - 1]);
            assert(rest.contains(dr[k - 1]));
            let w = choose|w: int| 0 <= w < rest.len() && rest[w] == dr[k - 1];
            assert(s[w + 1] == dr[k - 1]);
        }
    }
    assert forall|a: int, b: int|
        0 <= a < b < d.len() implies #[trigger] d[a] + DEDUP_WINDOW_MS <= #[trigger] d[b] by {
        if a == 0 {
            assert(d[b] == dr[b - 1]);
        } else {
            assert(d[a] == dr[a - 1] && d[b] == dr[b - 1]);
        }
    }
    assert(d.last() == (if dr.len() > 0 {
        dr.last()
    } else {
        s[0]
    }));
    assert forall|i: int| 0 <= i < s.len() implies #[trigger] s[i] < d.last() + DEDUP_WINDOW_MS by {
        if i > 0 {
            assert(rest[i - 1] == s[i]);
        }
    }
}

/// A segment's length; degenerate pairs count as empty.
pub open spec fn spec_seg_len(seg: (u64, u64)) -> int {
    if seg.1 >= seg.0 {
        seg.1 - seg.0
    } else {
        0
    }
}

/// The combined length of a segment list.
pub open spec fn spec_seg_total(segs: Seq<(u64, u64)>) -> int
    decreases segs.len(),
{
    if segs.len() == 0 {
        0int
    } else {
        spec_seg_len(segs[0]) + spec_seg_total(segs.drop_first())
    }
}

/// A well-formed segment list: each segment runs forward and is at least
/// `min_len` long, the list is ordered and disjoint, and everything lies
/// inside `[lo, hi]`.
pub open spec fn spec_segs_wf(segs: Seq<(u64, u64)>, min_len: int, lo: u64, hi: u64) -> bool {
    &&& forall|k: int|
        0 <= k < segs.len() ==> (#[trigger] segs[k]).0 + min_len <= segs[k].1 && lo <= segs[k].0
            && segs[k].1 <= hi
    &&& forall|a: int, b: int| 0 <= a < b < segs.len() ==> (#[trigger] segs[a]).1 <= (#[trigger] segs[b]).0
}

/// The segments of a sorted point list are well formed, and together
/// they cover all but the dropped short gaps: their combined length is
/// at least the whole span less one short gap per point.
pub proof fn lemma_segments_props(points: Seq<u64>)
    requires
        sorted_le(points),
        points.len() >= 1,
    ensures
        ({
            let g = spec_segments(points);
            &&& spec_segs_wf(g, MIN_SEGMENT_MS as int, points.first(), points.last())
            &&& spec_seg_total(g) >= points.last() - points.first() - (MIN_SEGMENT_MS as int) * (
            points.len() - 1)
        }),
    decreases points.len(),
{
    let g = spec_segments(points);
    if points.len() == 1 {
        assert(g =~= Seq::<(u64, u64)>::empty());
    } else {
        let rest = points.drop_first();
        assert(sorted_le(rest)) by {
            assert(forall|i: int, j: int|
                0 <= i < j < rest.len() ==> rest[i] == points[i + 1] && rest[j] == points[j + 1]);
        }
        assert(forall|i: int| 0 <= i < rest.len() ==> #[trigger] rest[i] == points[i + 1]);
        lemma_segments_props(rest);
        let gr = spec_segments(rest);
        assert(rest.first() == points[1]);
        assert(rest.last() == points.last());
        assert(points.first() <= points[1]);
        if points[1] - points[0] >= MIN_SEGMENT_MS {
            assert(g =~= seq![(points[0], points[1])] + gr);
            assert forall|k: int|
                0 <= k < g.len() implies (#[trigger] g[k]).0 + MIN_SEGMENT_MS as int <= g[k].1
                && points.first() <= g[k].0 && g[k].1 <= points.last() by {
                if k > 0 {
                    assert(g[k] == gr[k - 1]);
                }
            }
            assert forall|a: int, b: int|
                0 <= a < b < g.len() implies (#[trigger] g[a]).1 <= (#[trigger] g[b]).0 by {
                if a == 0 {
                    assert(g[b] == gr[b - 1]);
                    assert(points[1] <= gr[b - 1].0);
                } else {
                    assert(g[a] == gr[a - 1] && g[b] == gr[b - 1]);
                }
            }
            assert(g.drop_first() =~= gr);
            assert(spec_seg_total(g) == spec_seg_len((points[0], points[1])) + spec_seg_total(gr));
        } else {
            assert(g == gr);
            assert forall|k: int|
                0 <= k < g.len() implies (#[trigger] g[k]).0 + MIN_SEGMENT_MS as int <= g[k].1
                && points.first() <= g[k].0 && g[k].1 <= points.last() by {
                assert(g[k] == gr[k]);
            }
            assert(points[1] - points[0] < MIN_SEGMENT_MS);
            assert(spec_seg_total(g) >= points.last() - points.first() - (MIN_SEGMENT_MS as int) * (
            points.len() - 1)) by {
                assert(spec_seg_total(gr) >= rest.last() - rest.first() - (MIN_SEGMENT_MS as int) * (
                rest.len() - 1));
                assert((MIN_SEGMENT_MS as int) * (points.len() - 1) == (MIN_SEGMENT_MS as int) * (
                rest.len() - 1) + MIN_SEGMENT_MS) by (nonlinear_arith)
                    requires
                        points.len() == rest.len() + 1,
                ;
            }
        }
    }
}

/// The evenly-subsampled segment index: position `i` of `count`, rounded
/// half up over a list of `len` segments, clamped into range.
pub open spec fn spec_even_index(i: int, len: int, count: int) -> int {
    let den = if count <= 1 {
        1int
    } else {
        count - 1
    };
    let idx = (2 * i * (len - 1) + den) / (2 * den);
    if idx < len - 1 {
        idx
    } else {
        len - 1
    }
}

/// Evenly subsamples `count` of the segments by index.
pub open spec fn spec_select_evenly(segs: Seq<(u64, u64)>, count: int) -> Seq<(u64, u64)> {
    if segs.len() == 0 || count <= 0 {
        Seq::empty()
    } else {
        Seq::new(count as nat, |i: int| segs[spec_even_index(i, segs.len() as int, count)])
    }
}

/// The last index among the first `n` segments holding a maximal length.
pub open spec fn spec_longest_prefix(segs: Seq<(u64, u64)>, n: int) -> int
    decreases n,
{
    if n <= 1 {
        0int
    } else {
        let p = spec_longest_prefix(segs, n - 1);
        if spec_seg_len(segs[n - 1]) >= spec_seg_len(segs[p]) {
            n - 1
        } else {
            p
        }
    }
}

/// The index of the longest segment (the last one, on ties).
pub open spec fn spec_longest_idx(segs: Seq<(u64, u64)>) -> int {
    spec_longest_prefix(segs, segs.len() as int)
}

/// One greedy bisection step: the longest segment is replaced by its two
/// halves.
pub open spec fn spec_split_once(segs: Seq<(u64, u64)>) -> Seq<(u64, u64)> {
    let i = spec_longest_idx(segs);
    let s = segs[i].0;
    let e = segs[i].1;
    let m = if e >= s {
        (s + (e - s) / 2) as u64
    } else {
        s
    };
    segs.update(i, (s, m)).insert(i + 1, (m, e))
}

/// Greedy bisection of the longest segment until `count` segments exist.
pub open spec fn spec_split_until(segs: Seq<(u64, u64)>, count: int) -> Seq<(u64, u64)>
    decreases count - segs.len(),
    via spec_split_until_decreases
{
    if segs.len() == 0 || segs.len() >= count {
        segs
    } else {
        spec_split_until(spec_split_once(segs), count)
    }
}

#[via_fn]
proof fn spec_split_until_decreases(segs: Seq<(u64, u64)>, count: int) {
    if !(segs.len() == 0 || segs.len() >= count) {
        lemma_split_once_len(segs);
    }
}

/// The index of the longest segment among a nonempty prefix is in range.
pub proof fn lemma_longest_prefix_range(segs: Seq<(u64, u64)>, n: int)
    requires
        1 <= n,
    ensures
        0 <= spec_longest_prefix(segs, n) < n,
    decreases n,
{
    if n > 1 {
        lemma_longest_prefix_range(segs, n - 1);
    }
}

/// One bisection step adds exactly one segment.
pub proof fn lemma_split_once_len(segs: Seq<(u64, u64)>)
    requires
        segs.len() > 0,
    ensures
        spec_split_once(segs).len() == segs.len() + 1,
{
    lemma_longest_prefix_range(segs, segs.len() as int);
    let i = spec_longest_idx(segs);
    let s = segs[i].0;
    let e = segs[i].1;
    let m = if e >= s {
        (s + (e - s) / 2) as u64
    } else {
        s
    };
    assert(segs.update(i, (s, m)).insert(i + 1, (m, e)).len() == segs.len() + 1);
}

/// Bisection runs until exactly `count` segments exist (and leaves longer
/// lists alone).
pub proof fn lemma_split_until_len(segs: Seq<(u64, u64)>, count: int)
    requires
        segs.len() > 0,
    ensures
        spec_split_until(segs, count).len() == if count > segs.len() {
            count
        } else {
            segs.len() as int
        },
    decreases count - segs.len(),
{
    if segs.len() >= count {
    } else {
        lemma_split_once_len(segs);
        lemma_split_until_len(spec_split_once(segs), count);
    }
}

/// The representative timestamp of a segment: 35% into it, at least
/// `EDGE_GUARD_MS` from either end, clamped into the video's range.
pub open spec fn spec_representative(s: u64, e: u64, duration: u64) -> u64 {
    let len = spec_seg_len((s, e));
    let off = if len >= EDGE_GUARD_MS {
        let pref = len * REPRESENTATIVE_OFFSET_PERCENT as int / 100;
        let lo = if pref >= EDGE_GUARD_MS {
            pref
        } else {
            EDGE_GUARD_MS as int
        };
        if lo <= len - EDGE_GUARD_MS {
            lo
        } else {
            len - EDGE_GUARD_MS
        }
    } else {
        0int
    };
    let t = s + off;
    let cap = if duration >= TAIL_GUARD_MS {
        duration - TAIL_GUARD_MS
    } else {
        0int
    };
    if t <= cap {
        t as u64
    } else {
        cap as u64
    }
}

/// The full selection: build segments, subsample or bisect to exactly
/// `count`, then take each segment's representative timestamp.  When not
/// even one usable segment exists, the whole range stands in as the one
/// segment to subdivide.
pub open spec fn spec_select_timestamps(duration: u64, scene_ts: Seq<u64>, count: int) -> Seq<u64> {
    if count <= 0 || duration == 0 {
        Seq::empty()
    } else {
        let built = spec_build_segments(duration, scene_ts);
        let base = if built.len() == 0 {
            seq![(0u64, duration)]
        } else {
            built
        };
        let adjusted = if base.len() > count {
            spec_select_evenly(base, count)
        } else if base.len() < count {
            spec_split_until(base, count)
        } else {
            base
        };
        adjusted.take(count).map_values(|seg: (u64, u64)| spec_representative(seg.0, seg.1, duration))
    }
}

/// Evenly subsamples `count` segments by index, rounding half up.
pub fn select_evenly(segments: &Vec<(u64, u64)>, count: usize) -> (r: Vec<(u64, u64)>)
    requires
        count <= 0xFFFF_FFFFusize,
    ensures
        r@ == spec_select_evenly(segments@, count as int),
{
    let mut r: Vec<(u64, u64)> = Vec::new();
    if segments.len() == 0 || count == 0 {
        proof {
            assert(r@ =~= spec_select_evenly(segments@, count as int));
        }
        return r;
    }
    let len = segments.len();
    let den: u128 = if count <= 1 {
        1
    } else {
        (count - 1) as u128
    };
    let mut i: usize = 0;
    while i < count
        invariant
            i <= count,
            count <= 0xFFFF_FFFFusize,
            1 <= len == segments@.len(),
            den == (if count <= 1 {
                1int
            } else {
                count - 1
            }),
            r@ =~= Seq::new(
                i as nat,
                |k: int| segments@[spec_even_index(k, len as int, count as int)],
            ),
        decreases count - i,
    {
        proof {
            assert((i as int) * ((len - 1) as int) <= 0xFFFF_FFFF * 0xFFFF_FFFF_FFFF_FFFF)
                by (nonlinear_arith)
                requires
                    0 <= i as int <= 0xFFFF_FFFF,
                    0 <= (len - 1) as int <= 0xFFFF_FFFF_FFFF_FFFF,
            ;
        }
        let prod: u128 = (i as u128) * ((len - 1) as u128);
        let num: u128 = 2 * prod + den;
        let q: u128 = num / (2 * den);
        let idx: usize = if q < (len - 1) as u128 {
            q as usize
        } else {
            len - 1
        };
        proof {
            let ii = i as int;
            let ll = (len - 1) as int;
            let dd = den as int;
            assert(2 * (ii * ll) == 2 * ii * ll) by (nonlinear_arith);
            assert(num as int == 2 * ii * ll + dd);
            assert(q as int == (2 * ii * ll + dd) / (2 * dd));
        }
        assert(idx as int == spec_even_index(i as int, len as int, count as int));
        r.push(segments[idx]);
        proof {
            assert(r@ =~= Seq::new(
                (i + 1) as nat,
                |k: int| segments@[spec_even_index(k, len as int, count as int)],
            ));
        }
        i += 1;
    }
    proof {
        assert(r@ =~= spec_select_evenly(segments@, count as int));
    }
    r
}

/// The index of the longest segment, preferring the last on ties.
fn longest_index(segs: &Vec<(u64, u64)>) -> (idx: usize)
    requires
        segs@.len() > 0,
    ensures
        idx < segs@.len(),
        idx as int == spec_longest_idx(segs@),
{
    let mut best: usize = 0;
    let mut n: usize = 1;
    while n < segs.len()
        invariant
            1 <= n <= segs@.len(),
            best < n,
            best as int == spec_longest_prefix(segs@, n as int),
        decreases segs.len() - n,
    {
        let (bs, be) = segs[best];
        let (cs, ce) = segs[n];
        let bl: u64 = if be >= bs {
            be - bs
        } else {
            0
        };
        let cl: u64 = if ce >= cs {
            ce - cs
        } else {
            0
        };
        if cl >= bl {
            best = n;
        }
        n += 1;
    }
    best
}

/// Bisects the longest segment at its midpoint until `target_count`
/// segments exist.  Segments stay in their original order; the two halves
/// of a split segment stand where it stood.
pub fn split_longest_segments(segments: Vec<(u64, u64)>, target_count: usize) -> (r: Vec<
    (u64, u64),
>)
    ensures
        r@ == spec_split_until(segments@, target_count as int),
{
    let mut segs = segments;
    let ghost orig = segs@;
    if segs.len() == 0 {
        return segs;
    }
    while segs.len() < target_count
        invariant
            segs@.len() > 0,
            spec_split_until(segs@, target_count as int) == spec_split_until(
                orig,
                target_count as int,
            ),
        decreases target_count - segs.len(),
    {
        let ghost pre = segs@;
        let idx = longest_index(&segs);
        let (s, e) = segs[idx];
        let m: u64 = if e >= s {
            s + (e - s) / 2
        } else {
            s
        };
        segs.set(idx, (s, m));
        segs.insert(idx + 1, (m, e));
        proof {
            assert(segs@ =~= spec_split_once(pre));
        }
    }
    segs
}

/// The representative timestamp of the segment `[start_ms, end_ms]`.
pub fn calculate_representative_time(start_ms: u64, end_ms: u64, duration_ms: u64) -> (r: u64)
    ensures
        r == spec_representative(start_ms, end_ms, duration_ms),
{
    let len: u64 = if end_ms >= start_ms {
        end_ms - start_ms
    } else {
        0
    };
    let off: u64 = if len >= EDGE_GUARD_MS {
        proof {
            assert((len as int) * (REPRESENTATIVE_OFFSET_PERCENT as int) <= 0xFFFF_FFFF_FFFF_FFFF
                * 35) by (nonlinear_arith)
                requires
                    0 <= len as int <= 0xFFFF_FFFF_FFFF_FFFF,
                    REPRESENTATIVE_OFFSET_PERCENT == 35,
            ;
        }
        let pref: u128 = (len as u128) * (REPRESENTATIVE_OFFSET_PERCENT as u128) / 100;
        let lo: u128 = if pref >= EDGE_GUARD_MS as u128 {
            pref
        } else {
            EDGE_GUARD_MS as u128
        };
        let capped: u128 = if lo <= (len - EDGE_GUARD_MS) as u128 {
            lo
        } else {
            (len - EDGE_GUARD_MS) as u128
        };
        capped as u64
    } else {
        0
    };
    let t: u128 = start_ms as u128 + off as u128;
    let cap: u64 = if duration_ms >= TAIL_GUARD_MS {
        duration_ms - TAIL_GUARD_MS
    } else {
        0
    };
    if t <= cap as u128 {
        t as u64
    } else {
        cap
    }
}

/// De-duplication never lengthens a list.
proof fn lemma_dedup_tail_len(s: Seq<u64>, last: u64)
    ensures
        spec_dedup_tail(s, last).len() <= s.len(),
    decreases s.len(),
{
    if s.len() > 0 {
        lemma_dedup_tail_len(s.drop_first(), last);
        lemma_dedup_tail_len(s.drop_first(), s[0]);
    }
}

/// De-duplication never lengthens a list.
pub proof fn lemma_dedup_len(s: Seq<u64>)
    ensures
        spec_dedup(s).len() <= s.len(),
{
    if s.len() > 0 {
        lemma_dedup_tail_len(s.drop_first(), s[0]);
    }
}

/// The longest-prefix index points at a maximal length.
proof fn lemma_longest_prefix_max(segs: Seq<(u64, u64)>, n: int)
    requires
        1 <= n <= segs.len(),
    ensures
        forall|k: int|
            0 <= k < n ==> spec_seg_len(#[trigger] segs[k]) <= spec_seg_len(
                segs[spec_longest_prefix(segs, n)],
            ),
    decreases n,
{
    if n > 1 {
        lemma_longest_prefix_max(segs, n - 1);
    }
}

/// A list's combined length is at most its count times any upper bound
/// on its segment lengths.
proof fn lemma_total_le_bound(segs: Seq<(u64, u64)>, m: int)
    requires
        forall|k: int| 0 <= k < segs.len() ==> spec_seg_len(#[trigger] segs[k]) <= m,
        m >= 0,
    ensures
        spec_seg_total(segs) <= segs.len() * m,
    decreases segs.len(),
{
    if segs.len() == 0 {
    } else {
        let rest = segs.drop_first();
        assert(forall|k: int| 0 <= k < rest.len() ==> #[trigger] rest[k] == segs[k + 1]);
        lemma_total_le_bound(rest, m);
        assert(spec_seg_total(segs) == spec_seg_len(segs[0]) + spec_seg_total(rest));
        assert((segs.len() - 1) * m + m == segs.len() * m) by (nonlinear_arith);
    }
}

/// Splitting one segment in two keeps the combined length.
proof fn lemma_total_split(segs: Seq<(u64, u64)>, i: int, x: (u64, u64), y: (u64, u64))
    requires
        0 <= i < segs.len(),
        spec_seg_len(x) + spec_seg_len(y) == spec_seg_len(segs[i]),
    ensures
        spec_seg_total(segs.update(i, x).insert(i + 1, y)) == spec_seg_total(segs),
    decreases i,
{
    let out = segs.update(i, x).insert(i + 1, y);
    if i == 0 {
        assert(out[0] == x);
        assert(out[1] == y);
        assert(out.drop_first().drop_first() =~= segs.drop_first());
        assert(out.drop_first()[0] == y);
        assert(spec_seg_total(out) == spec_seg_len(x) + spec_seg_total(out.drop_first()));
        assert(spec_seg_total(out.drop_first()) == spec_seg_len(y) + spec_seg_total(
            out.drop_first().drop_first(),
        ));
    } else {
        let rest = segs.drop_first();
        lemma_total_split(rest, i - 1, x, y);
        assert(rest[i - 1] == segs[i]);
        assert(out.drop_first() =~= rest.update(i - 1, x).insert(i, y));
        assert(out[0] == segs[0]);
        assert(spec_seg_total(out) == spec_seg_len(segs[0]) + spec_seg_total(
            rest.update(i - 1, x).insert(i, y),
        ));
    }
}

/// Greedy bisection preserves well-formedness at half the length floor,
/// keeps the combined length, and stays inside the same bounds — as long
/// as the combined length leaves at least twice the floor per requested
/// segment, the midpoint of the longest segment never lands closer than
/// the floor to its ends.
pub proof fn lemma_split_until_props(segs: Seq<(u64, u64)>, count: int, lo: u64, hi: u64)
    requires
        segs.len() >= 1,
        spec_segs_wf(segs, 200, lo, hi),
        spec_seg_total(segs) >= 400 * count,
    ensures
        ({
            let out = spec_split_until(segs, count);
            &&& spec_segs_wf(out, 200, lo, hi)
            &&& out.len() == (if count > segs.len() {
                count
            } else {
                segs.len() as int
            })
        }),
    decreases count - segs.len(),
{
    lemma_split_until_len(segs, count);
    if segs.len() >= count {
    } else {
        let i = spec_longest_idx(segs);
        lemma_longest_prefix_range(segs, segs.len() as int);
        lemma_longest_prefix_max(segs, segs.len() as int);
        let s = segs[i].0;
        let e = segs[i].1;
        assert(spec_seg_len(segs[i]) > 400) by {
            if spec_seg_len(segs[i]) <= 400 {
                lemma_total_le_bound(segs, 400);
                assert(spec_seg_total(segs) <= segs.len() * 400);
                assert(segs.len() * 400 < count * 400) by (nonlinear_arith)
                    requires
                        segs.len() < count,
                ;
                assert(400 * count == count * 400) by (nonlinear_arith);
            }
        }
        assert(e >= s);
        let m = (s + (e - s) / 2) as u64;
        assert(s <= m <= e);
        assert(m - s >= 200 && e - m >= 200) by {
            assert(e - s > 400);
            assert((e - s) / 2 >= 200 && (e - s) - (e - s) / 2 >= 200) by (nonlinear_arith)
                requires
                    e - s > 400,
            ;
        }
        let out1 = spec_split_once(segs);
        assert(out1 =~= segs.update(i, (s, m)).insert(i + 1, (m, e)));
        lemma_total_split(segs, i, (s, m), (m, e));
        assert(spec_segs_wf(out1, 200, lo, hi)) by {
            assert forall|k: int|
                0 <= k < out1.len() implies (#[trigger] out1[k]).0 + 200 <= out1[k].1 && lo
                <= out1[k].0 && out1[k].1 <= hi by {
                if k < i {
                    assert(out1[k] == segs[k]);
                } else if k == i {
                    assert(out1[k] == (s, m));
                } else if k == i + 1 {
                    assert(out1[k] == (m, e));
                } else {
                    assert(out1[k] == segs[k - 1]);
                }
            }
            assert forall|a: int, b: int|
                0 <= a < b < out1.len() implies (#[trigger] out1[a]).1 <= (#[trigger] out1[b]).0 by {
                let pa = if a <= i {
                    a
                } else {
                    a - 1
                };
                let pb = if b <= i {
                    b
                } else {
                    b - 1
                };
                if a == i && b == i + 1 {
                } else if b == i {
                    assert(out1[a] == segs[a]);
                    assert(out1[b].0 == s);
                } else if a == i {
                    assert(out1[a].1 == m);
                    assert(out1[b] == segs[b - 1]);
                    assert(m <= e);
                } else if a == i + 1 {
                    assert(out1[a].1 == e);
                    assert(out1[b] == segs[b - 1]);
                } else if b == i + 1 {
                    assert(out1[b].0 == m);
                    assert(out1[a] == segs[pa]);
                    assert(segs[pa].1 <= s <= m);
                } else {
                    assert(out1[a] == segs[pa] && out1[b] == segs[pb]);
                }
            }
        }
        lemma_split_until_props(out1, count, lo, hi);
    }
}

/// With more segments than samples, the evenly-subsampled indices are
/// strictly increasing and in range; the last one is exactly the last
/// segment.
pub proof fn lemma_even_indices_strict(len: int, count: int)
    requires
        1 <= count < len,
    ensures
        forall|i: int| 0 <= i < count ==> 0 <= #[trigger] spec_even_index(i, len, count) < len,
        forall|i: int|
            0 <= i < count - 1 ==> #[trigger] spec_even_index(i, len, count) < spec_even_index(
                i + 1,
                len,
                count,
            ),
{
    assert forall|i: int|
        0 <= i < count implies 0 <= #[trigger] spec_even_index(i, len, count) < len by {
        lemma_even_index_core(len, count, i);
    }
    assert forall|i: int|
        0 <= i < count - 1 implies #[trigger] spec_even_index(i, len, count) < spec_even_index(
        i + 1,
        len,
        count,
    ) by {
        lemma_even_index_core(len, count, i);
    }
}

/// One evenly-subsampled index is in range and below its successor.
proof fn lemma_even_index_core(len: int, count: int, i: int)
    requires
        1 <= count < len,
        0 <= i < count,
    ensures
        0 <= spec_even_index(i, len, count) < len,
        i < count - 1 ==> spec_even_index(i, len, count) < spec_even_index(i + 1, len, count),
{
    if count == 1 {
        assert(2 * 0 * (len - 1) + 1 == 1) by (nonlinear_arith);
        assert(1int / 2 == 0) by (nonlinear_arith);
        assert(spec_even_index(0, len, count) == 0);
    } else {
        let den = count - 1;
        let d2 = 2 * den;
        let a = 2 * i * (len - 1) + den;
        assert(0 <= 2 * i * (len - 1)) by (nonlinear_arith)
            requires
                0 <= i,
                1 <= len,
        ;
        vstd::arithmetic::div_mod::lemma_div_is_ordered(0, a, d2);
        assert(0int / d2 == 0) by {
            vstd::arithmetic::div_mod::lemma_fundamental_div_mod_converse(0, d2, 0, 0);
        }
        let alast = 2 * (count - 1) * (len - 1) + den;
        assert(alast == (len - 1) * d2 + den) by (nonlinear_arith)
            requires
                d2 == 2 * (count - 1),
                den == count - 1,
                alast == 2 * (count - 1) * (len - 1) + den,
        ;
        assert(alast / d2 == len - 1) by {
            vstd::arithmetic::div_mod::lemma_fundamental_div_mod_converse(alast, d2, len - 1, den);
        }
        assert(a <= alast) by (nonlinear_arith)
            requires
                a == 2 * i * (len - 1) + den,
                alast == 2 * (count - 1) * (len - 1) + den,
                i <= count - 1,
                1 <= len,
                0 <= i,
        ;
        vstd::arithmetic::div_mod::lemma_div_is_ordered(a, alast, d2);
        if i < count - 1 {
            let anext = 2 * (i + 1) * (len - 1) + den;
            assert(anext >= a + d2 + 2) by (nonlinear_arith)
                requires
                    anext == 2 * (i + 1) * (len - 1) + den,
                    a == 2 * i * (len - 1) + den,
                    len - 1 >= count,
                    count - 1 == den,
                    d2 == 2 * den,
            ;
            let q = a / d2;
            let r = a % d2;
            vstd::arithmetic::div_mod::lemma_fundamental_div_mod(a, d2);
            assert(a == d2 * q + r);
            assert((a + d2) / d2 == q + 1) by {
                assert(a + d2 == (q + 1) * d2 + r) by (nonlinear_arith)
                    requires
                        a == d2 * q + r,
                ;
                vstd::arithmetic::div_mod::lemma_fundamental_div_mod_converse(a + d2, d2, q + 1, r);
            }
            vstd::arithmetic::div_mod::lemma_div_is_ordered(a + d2, anext, d2);
            let bnext = anext / d2;
            assert(bnext >= q + 1);
            assert(anext <= alast) by (nonlinear_arith)
                requires
                    anext == 2 * (i + 1) * (len - 1) + den,
                    alast == 2 * (count - 1) * (len - 1) + den,
                    i + 1 <= count - 1,
                    1 <= len,
                    0 <= i,
            ;
            vstd::arithmetic::div_mod::lemma_div_is_ordered(anext, alast, d2);
            assert(0 <= 2 * (i + 1) * (len - 1)) by (nonlinear_arith)
                requires
                    0 <= i + 1,
                    1 <= len,
            ;
            vstd::arithmetic::div_mod::lemma_div_is_ordered(0, anext, d2);
        }
    }
}

/// A representative timestamp stays inside its segment, at least 200
/// milliseconds short of the segment's end, and is not clamped when the
/// segment ends inside the video.
pub proof fn lemma_rep_bounds(s: u64, e: u64, duration: u64)
    requires
        s + 200 <= e,
        e <= duration,
    ensures
        s <= spec_representative(s, e, duration) <= e - 200,
        spec_representative(s, e, duration) < duration,
{
    let len = spec_seg_len((s, e));
    if len >= EDGE_GUARD_MS {
        let pref = len * REPRESENTATIVE_OFFSET_PERCENT as int / 100;
        assert(pref >= 0) by {
            assert(len * 35 >= 0) by (nonlinear_arith)
                requires
                    len >= 0,
            ;
            vstd::arithmetic::div_mod::lemma_div_is_ordered(0, len * 35, 100);
            assert(0int / 100 == 0) by {
                vstd::arithmetic::div_mod::lemma_fundamental_div_mod_converse(0, 100, 0, 0);
            }
        }
    }
}

/// Representative timestamps of a well-formed segment list are strictly
/// increasing and lie inside the video.
pub proof fn lemma_reps_strict(segs: Seq<(u64, u64)>, duration: u64)
    requires
        spec_segs_wf(segs, 200, 0, duration),
    ensures
        ({
            let r = segs.map_values(|seg: (u64, u64)| spec_representative(seg.0, seg.1, duration));
            &&& forall|a: int, b: int| 0 <= a < b < r.len() ==> r[a] < r[b]
            &&& forall|k: int| 0 <= k < r.len() ==> r[k] < duration
        }),
{
    let r = segs.map_values(|seg: (u64, u64)| spec_representative(seg.0, seg.1, duration));
    assert forall|k: int| 0 <= k < r.len() implies r[k] < duration by {
        lemma_rep_bounds(segs[k].0, segs[k].1, duration);
    }
    assert forall|a: int, b: int| 0 <= a < b < r.len() implies r[a] < r[b] by {
        lemma_rep_bounds(segs[a].0, segs[a].1, duration);
        lemma_rep_bounds(segs[b].0, segs[b].1, duration);
        assert(segs[a].1 <= segs[b].0);
    }
}

/// Scene-aware selection is well spread: given at least a second of
/// video per requested sample and per scene point (and scene points
/// inside the video), the selected timestamps are exactly `count` many,
/// strictly increasing, and all inside `[0, duration)`.
pub proof fn lemma_select_timestamps_spread(duration_ms: u64, scene_ts: Seq<u64>, count: int)
    requires
        1 <= count,
        forall|i: int| 0 <= i < scene_ts.len() ==> #[trigger] scene_ts[i] <= duration_ms,
        duration_ms >= 1000 * (count + scene_ts.len() + 1),
    ensures
        ({
            let r = spec_select_timestamps(duration_ms, scene_ts, count);
            &&& r.len() == count
            &&& forall|a: int, b: int| 0 <= a < b < count ==> r[a] < r[b]
            &&& forall|k: int| 0 <= k < count ==> r[k] < duration_ms
        }),
{
    let n = scene_ts.len() as int;
    assert(duration_ms >= 2000) by {
        assert(1000 * (count + n + 1) >= 2000) by (nonlinear_arith)
            requires
                count >= 1,
                n >= 0,
        ;
    }
    let points = seq![0u64] + scene_ts + seq![duration_ms];
    assert(points.len() == n + 2);
    assert(points[0] == 0 && points[points.len() - 1] == duration_ms);
    assert(forall|k: int| 0 <= k < points.len() ==> #[trigger] points[k] <= duration_ms);
    let sorted = spec_sort(points);
    lemma_sort_multiset(points);
    lemma_sort_sorted(points);
    assert(sorted.len() == n + 2);
    assert(points.contains(0u64) && points.contains(duration_ms));
    assert(sorted.contains(0u64) && sorted.contains(duration_ms));
    assert forall|k: int| 0 <= k < sorted.len() implies #[trigger] sorted[k] <= duration_ms by {
        assert(sorted.contains(sorted[k]));
        assert(points.contains(sorted[k]));
        let w = choose|w: int| 0 <= w < points.len() && points[w] == sorted[k];
    }
    assert(sorted.first() == 0) by {
        let w = choose|w: int| 0 <= w < sorted.len() && sorted[w] == 0u64;
        assert(sorted[0] <= sorted[w]);
    }
    assert(sorted.last() == duration_ms) by {
        let w = choose|w: int| 0 <= w < sorted.len() && sorted[w] == duration_ms;
        assert(sorted[w] <= sorted[sorted.len() - 1]);
    }
    let d = spec_dedup(sorted);
    lemma_dedup_props(sorted);
    lemma_dedup_len(sorted);
    assert(d.len() <= n + 2);
    assert(d[0] == 0);
    assert(sorted_le(d)) by {
        assert(forall|a: int, b: int| 0 <= a < b < d.len() ==> d[a] + DEDUP_WINDOW_MS <= d[b]);
    }
    assert forall|k: int| 0 <= k < d.len() implies #[trigger] d[k] <= duration_ms by {
        assert(sorted.contains(d[k]));
        let w = choose|w: int| 0 <= w < sorted.len() && sorted[w] == d[k];
    }
    assert(d.last() + DEDUP_WINDOW_MS > duration_ms) by {
        assert(sorted[sorted.len() - 1] < d.last() + DEDUP_WINDOW_MS);
    }
    assert(d.first() == 0);
    let g = spec_segments(d);
    lemma_segments_props(d);
    assert(spec_segs_wf(g, MIN_SEGMENT_MS as int, 0, d.last()));
    assert(d.last() <= duration_ms);
    let total_low = d.last() - d.first() - (MIN_SEGMENT_MS as int) * (d.len() - 1);
    assert(spec_seg_total(g) >= total_low);
    assert(total_low >= 400 * count + 1) by {
        assert((MIN_SEGMENT_MS as int) * (d.len() - 1) <= 500 * (n + 1)) by (nonlinear_arith)
            requires
                d.len() <= n + 2,
                d.len() >= 1,
                MIN_SEGMENT_MS == 500,
        ;
        assert(d.last() > duration_ms - 100);
        assert(duration_ms - 100 - 500 * (n + 1) >= 400 * count + 1) by (nonlinear_arith)
            requires
                duration_ms >= 1000 * (count + n + 1),
                count >= 1,
                n >= 0,
        ;
    }
    let base = if g.len() == 0 {
        seq![(0u64, duration_ms)]
    } else {
        g
    };
    assert(spec_segs_wf(base, 200, 0, duration_ms) && spec_seg_total(base) >= 400 * count) by {
        if g.len() == 0 {
            assert(base[0] == (0u64, duration_ms));
            assert(spec_seg_total(base) == spec_seg_len((0u64, duration_ms)) + spec_seg_total(
                base.drop_first(),
            ));
            assert(base.drop_first() =~= Seq::<(u64, u64)>::empty());
            assert(duration_ms >= 400 * count + 500) by (nonlinear_arith)
                requires
                    duration_ms >= 1000 * (count + n + 1),
                    count >= 1,
                    n >= 0,
            ;
        } else {
            assert(forall|k: int|
                0 <= k < g.len() ==> (#[trigger] g[k]).0 + MIN_SEGMENT_MS as int <= g[k].1 && 0
                    <= g[k].0 && g[k].1 <= d.last());
        }
    }
    let adjusted = if base.len() > count {
        spec_select_evenly(base, count)
    } else if base.len() < count {
        spec_split_until(base, count)
    } else {
        base
    };
    assert(adjusted.len() >= count && spec_segs_wf(adjusted.take(count), 200, 0, duration_ms)) by {
        if base.len() > count {
            lemma_even_indices_strict(base.len() as int, count);
            let sel = spec_select_evenly(base, count);
            assert(sel.len() == count);
            assert forall|k: int|
                0 <= k < count implies (#[trigger] sel.take(count)[k]).0 + 200 <= sel.take(
                count,
            )[k].1 && 0 <= sel.take(count)[k].0 && sel.take(count)[k].1 <= duration_ms by {
                assert(sel[k] == base[spec_even_index(k, base.len() as int, count)]);
            }
            assert forall|a: int, b: int|
                0 <= a < b < count implies (#[trigger] sel.take(count)[a]).1 <= (#[trigger] sel.take(
                count,
            )[b]).0 by {
                let ia = spec_even_index(a, base.len() as int, count);
                let ib = spec_even_index(b, base.len() as int, count);
                assert(ia < ib) by {
                    lemma_even_index_monotone(base.len() as int, count, a, b);
                }
                assert(sel[a] == base[ia] && sel[b] == base[ib]);
            }
        } else if base.len() < count {
            lemma_split_until_props(base, count, 0, duration_ms);
            let out = spec_split_until(base, count);
            assert(out.len() == count);
            assert(out.take(count) =~= out);
        } else {
            assert(base.take(count) =~= base);
        }
    }
    let reps = adjusted.take(count).map_values(
        |seg: (u64, u64)| spec_representative(seg.0, seg.1, duration_ms),
    );
    lemma_reps_strict(adjusted.take(count), duration_ms);
    assert(spec_select_timestamps(duration_ms, scene_ts, count) == reps);
    assert(reps.len() == count);
}

/// Evenly-subsampled indices grow strictly with the sample ordinal.
proof fn lemma_even_index_monotone(len: int, count: int, a: int, b: int)
    requires
        1 <= count < len,
        0 <= a < b < count,
    ensures
        spec_even_index(a, len, count) < spec_even_index(b, len, count),
    decreases b - a,
{
    lemma_even_indices_strict(len, count);
    if b == a + 1 {
    } else {
        lemma_even_index_monotone(len, count, a, b - 1);
        lemma_even_index_monotone(len, count, b - 1, b);
    }
}

/// Selects exactly `count` representative timestamps for a video of the
/// given length, guided by its scene changes.  Returns the sequence given
/// by [`spec_select_timestamps`]; it is empty exactly when `count` is
/// zero or the video has no length.
pub fn select_timestamps(duration_ms: u64, scene_changes: &[SceneChange], count: usize) -> (r: Vec<
    u64,
>)
    requires
        count <= 0xFFFF_FFFFusize,
    ensures
        r@ == spec_select_timestamps(
            duration_ms,
            scene_changes@.map_values(|sc: SceneChange| sc.timestamp_ms),
            count as int,
        ),
{
    let ghost ts = scene_changes@.map_values(|sc: SceneChange| sc.timestamp_ms);
    let mut r: Vec<u64> = Vec::new();
    if count == 0 || duration_ms == 0 {
        proof {
            assert(r@ =~= spec_select_timestamps(duration_ms, ts, count as int));
        }
        return r;
    }
    let built = build_segments(duration_ms, scene_changes);
    let base = if built.len() == 0 {
        let mut one: Vec<(u64, u64)> = Vec::new();
        one.push((0, duration_ms));
        proof {
            assert(one@ =~= seq![(0u64, duration_ms)]);
        }
        one
    } else {
        built
    };
    let adjusted = if base.len() > count {
        select_evenly(&base, count)
    } else if base.len() < count {
        proof {
            lemma_split_until_len(base@, count as int);
        }
        split_longest_segments(base, count)
    } else {
        base
    };
    assert(count <= adjusted@.len());
    let ghost adj = adjusted@;
    let mut i: usize = 0;
    while i < count
        invariant
            i <= count,
            count <= adj.len(),
            adj == adjusted@,
            r@ =~= adj.take(i as int).map_values(
                |seg: (u64, u64)| spec_representative(seg.0, seg.1, duration_ms),
            ),
        decreases count - i,
    {
        let (s, e) = adjusted[i];
        let t = calculate_representative_time(s, e, duration_ms);
        r.push(t);
        proof {
            assert(adj.take(i as int + 1) =~= adj.take(i as int).push(adj[i as int]));
            assert(adj.take(i as int + 1).map_values(
                |seg: (u64, u64)| spec_representative(seg.0, seg.1, duration_ms),
            ) =~= adj.take(i as int).map_values(
                |seg: (u64, u64)| spec_representative(seg.0, seg.1, duration_ms),
            ).push(spec_representative(adj[i as int].0, adj[i as int].1, duration_ms)));
        }
        i += 1;
    }
    proof {
        assert(r@ =~= spec_select_timestamps(duration_ms, ts, count as int));
    }
    r
}

} // verus!
