//! Cutting a resource into byte ranges.
//!
//! A range is a pair `(start, end)` of byte positions, both inclusive, as in an
//! HTTP `Range` header.  A resource of `total` bytes cut with segment size
//! `seg` gives the ranges `(0, seg - 1)`, `(seg, 2 * seg - 1)`, and so on; the
//! last one ends at `total - 1`, however short that leaves it.

use vstd::prelude::*;

verus! {

/// How many segments of `seg` bytes it takes to hold `total` bytes: the
/// quotient `total / seg`, rounded up.
pub open spec fn segment_count(total: nat, seg: nat) -> nat
    recommends
        seg > 0,
{
    if total % seg == 0 {
        total / seg
    } else {
        total / seg + 1
    }
}

/// The first byte of segment `i`.
pub open spec fn segment_start(i: int, seg: nat) -> int {
    i * seg
}

/// The last byte of segment `i`: one short of the next segment's start, or the
/// last byte of the resource where that comes first.
pub open spec fn segment_end(i: int, total: nat, seg: nat) -> int {
    if (i + 1) * seg <= total {
        (i + 1) * seg - 1
    } else {
        total - 1
    }
}

/// The ranges into which a resource of `total` bytes is cut by segments of
/// `seg` bytes.
pub open spec fn partition(total: u64, seg: u64) -> Seq<(u64, u64)>
    recommends
        seg > 0,
{
    Seq::new(
        segment_count(total as nat, seg as nat),
        |i: int| (segment_start(i, seg as nat) as u64, segment_end(i, total as nat, seg as nat) as u64),
    )
}

/// The number of bytes in an inclusive range.
pub open spec fn range_len(range: (u64, u64)) -> int {
    range.1 - range.0 + 1
}

/// `ranges` lie one after the other without gap or overlap and together hold
/// exactly the bytes `0 .. total`.
pub open spec fn tiles(ranges: Seq<(u64, u64)>, total: u64) -> bool {
    &&& ranges.len() == 0 <==> total == 0
    &&& forall|i: int| 0 <= i < ranges.len() ==> (#[trigger] ranges[i]).0 <= ranges[i].1
    &&& ranges.len() > 0 ==> ranges[0].0 == 0 && ranges[ranges.len() - 1].1 == total - 1
    &&& forall|i: int|
        0 <= i < ranges.len() - 1 ==> (#[trigger] ranges[i]).1 + 1 == ranges[i + 1].0
    &&& forall|i: int, j: int|
        0 <= i < j < ranges.len() ==> (#[trigger] ranges[i]).1 < (#[trigger] ranges[j]).0
}

/// The count of segments is the least number of them that reaches `total`.
pub proof fn lemma_segment_count_bounds(total: nat, seg: nat)
    requires
        seg > 0,
    ensures
        segment_count(total, seg) * seg >= total,
        total > 0 ==> (segment_count(total, seg) - 1) * seg < total,
        segment_count(total, seg) == 0 <==> total == 0,
{
    let q = total / seg;
    let r = total % seg;
    assert(total == seg * q + r && 0 <= r < seg) by (nonlinear_arith)
        requires
            seg > 0,
            q == total / seg,
            r == total % seg,
    ;
    let c = segment_count(total, seg);
    assert(c * seg >= total && (total > 0 ==> (c - 1) * seg < total) && (c == 0 <==> total == 0))
        by (nonlinear_arith)
        requires
            seg > 0,
            q >= 0,
            total == seg * q + r,
            0 <= r < seg,
            c == (if r == 0 {
                q
            } else {
                q + 1
            }),
    ;
}

/// A segment index lies below the count exactly when its start lies inside
/// the resource.
pub proof fn lemma_segment_index(i: int, total: nat, seg: nat)
    requires
        seg > 0,
        0 <= i,
    ensures
        i < segment_count(total, seg) <==> segment_start(i, seg) < total,
{
    lemma_segment_count_bounds(total, seg);
    let c = segment_count(total, seg) as int;
    if i < c {
        assert(i * seg <= (c - 1) * seg) by (nonlinear_arith)
            requires
                i <= c - 1,
                seg > 0,
        ;
    } else {
        assert(i * seg >= c * seg) by (nonlinear_arith)
            requires
                i >= c,
                seg > 0,
        ;
    }
}

/// Every range of a partition starts and ends inside the resource, and holds
/// at least one and at most `seg` bytes.
pub proof fn lemma_partition_entry(total: u64, seg: u64, i: int)
    requires
        seg > 0,
        0 <= i < partition(total, seg).len(),
    ensures
        partition(total, seg)[i].0 == segment_start(i, seg as nat),
        partition(total, seg)[i].1 == segment_end(i, total as nat, seg as nat),
        partition(total, seg)[i].0 <= partition(total, seg)[i].1 < total,
        range_len(partition(total, seg)[i]) <= seg,
        i + 1 < partition(total, seg).len() ==> range_len(partition(total, seg)[i]) == seg,
{
    lemma_segment_index(i, total as nat, seg as nat);
    lemma_segment_index(i + 1, total as nat, seg as nat);
    assert((i + 1) * seg == i * seg + seg) by (nonlinear_arith);
    assert(0 <= i * seg) by (nonlinear_arith)
        requires
            0 <= i,
            seg > 0,
    ;
}

/// The ranges of a partition lie one after the other without gap or overlap,
/// start at byte 0 and end at the last byte; there are as many of them as
/// `total / seg` rounded up, and none exactly when the resource is empty.
pub proof fn lemma_partition_tiles(total: u64, seg: u64)
    requires
        seg > 0,
    ensures
        tiles(partition(total, seg), total),
        partition(total, seg).len() == segment_count(total as nat, seg as nat),
{
    let ranges = partition(total, seg);
    let n = ranges.len() as int;
    lemma_segment_count_bounds(total as nat, seg as nat);
    assert forall|i: int| 0 <= i < n implies (#[trigger] ranges[i]).0 <= ranges[i].1 by {
        lemma_partition_entry(total, seg, i);
    }
    if n > 0 {
        lemma_partition_entry(total, seg, 0);
        lemma_partition_entry(total, seg, n - 1);
        assert(ranges[0].0 == 0);
        assert(n * seg >= total);
        assert((n - 1 + 1) * seg == n * seg) by (nonlinear_arith);
        assert(ranges[n - 1].1 == total - 1);
    }
    assert forall|i: int| 0 <= i < n - 1 implies (#[trigger] ranges[i]).1 + 1 == ranges[i + 1].0 by {
        lemma_partition_entry(total, seg, i);
        lemma_partition_entry(total, seg, i + 1);
        lemma_segment_index(i + 1, total as nat, seg as nat);
    }
    assert forall|i: int, j: int| 0 <= i < j < n implies (#[trigger] ranges[i]).1 < (
    #[trigger] ranges[j]).0 by {
        lemma_partition_entry(total, seg, i);
        lemma_partition_entry(total, seg, j);
        assert((i + 1) * seg <= j * seg) by (nonlinear_arith)
            requires
                i + 1 <= j,
                seg > 0,
        ;
    }
}

/// A segment size that reaches the end of a non-empty resource gives the one
/// range that holds all of it.
pub proof fn lemma_partition_single(total: u64, seg: u64)
    requires
        total > 0,
        seg >= total,
    ensures
        partition(total, seg) == seq![(0u64, (total - 1) as u64)],
{
    let t = total as nat;
    let s = seg as nat;
    assert(segment_count(t, s) == 1) by {
        if s == t {
            assert(t % s == 0 && t / s == 1) by (nonlinear_arith)
                requires
                    s == t,
                    t > 0,
            ;
        } else {
            assert(t % s == t && t / s == 0) by (nonlinear_arith)
                requires
                    0 < t < s,
            ;
        }
    }
    lemma_partition_entry(total, seg, 0);
    assert((0 + 1) * s == s) by (nonlinear_arith);
    assert(partition(total, seg) =~= seq![(0u64, (total - 1) as u64)]);
}

/// An empty resource has no ranges, whatever the segment size.
pub proof fn lemma_partition_empty(seg: u64)
    requires
        seg > 0,
    ensures
        partition(0, seg) == Seq::<(u64, u64)>::empty(),
{
    lemma_segment_count_bounds(0, seg as nat);
    assert(partition(0, seg) =~= Seq::<(u64, u64)>::empty());
}

/// Cutting is a function of the two sizes: two answers to the same question
/// are the same list of ranges.
pub proof fn lemma_partition_deterministic(
    total: u64,
    seg: u64,
    first: Seq<(u64, u64)>,
    second: Seq<(u64, u64)>,
)
    requires
        first == partition(total, seg),
        second == partition(total, seg),
    ensures
        first == second,
{
}

/// Cuts a resource of `file_size` bytes into ranges of `segment_size` bytes,
/// in ascending order; the last range is cut short at the end of the
/// resource.
pub fn split_data(file_size: u64, segment_size: u64) -> (ranges: Vec<(u64, u64)>)
    requires
        segment_size > 0,
    ensures
        ranges@ == partition(file_size, segment_size),
        ranges@.len() == segment_count(file_size as nat, segment_size as nat),
        tiles(ranges@, file_size),
        file_size > 0 && segment_size >= file_size ==> ranges@ == seq![
            (0u64, (file_size - 1) as u64),
        ],
{
    let mut ranges: Vec<(u64, u64)> = Vec::new();
    let mut start: u64 = 0;
    let ghost total = file_size as nat;
    let ghost seg = segment_size as nat;
    proof {
        assert(0 * seg == 0) by (nonlinear_arith);
    }
    while start < file_size
        invariant
            segment_size > 0,
            total == file_size,
            seg == segment_size,
            start <= file_size,
            ranges@.len() <= partition(file_size, segment_size).len(),
            start == if ranges@.len() * seg <= total {
                ranges@.len() * seg
            } else {
                total
            },
            ranges@ == partition(file_size, segment_size).take(ranges@.len() as int),
        decreases file_size - start,
    {
        let ghost i = ranges@.len() as int;
        let end: u64 = if segment_size >= file_size - start {
            file_size
        } else {
            start + segment_size
        };
        proof {
            lemma_segment_index(i, total, seg);
            lemma_partition_entry(file_size, segment_size, i);
            assert((i + 1) * seg == i * seg + seg) by (nonlinear_arith);
        }
        ranges.push((start, end - 1));
        start = end;
        proof {
            assert(ranges@ =~= partition(file_size, segment_size).take(i + 1));
        }
    }
    proof {
        lemma_segment_index(ranges@.len() as int, total, seg);
        assert(ranges@ =~= partition(file_size, segment_size));
        lemma_partition_tiles(file_size, segment_size);
        if file_size > 0 && segment_size >= file_size {
            lemma_partition_single(file_size, segment_size);
        }
    }
    ranges
}

} // verus!
