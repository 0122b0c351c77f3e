//! The destination file as a sequence of bytes, and what positioned writes
//! make of it.
//!
//! Segments finish in no particular order, and the chunks of different
//! segments reach the file interleaved.  The laws of this module say why
//! that does no harm: writes that each copy a stretch of the resource to the
//! position it has in the resource, and that leave no byte out, end in a
//! file equal to the resource, in whatever order they are made.  The chunks
//! that the cursors place are such writes, and where every cursor is brought
//! to the end of its range they leave no byte out.

use crate::error::Error;
use crate::plan::planned_ranges;
use crate::range::{lemma_partition_entry, lemma_segment_index, partition, range_len};
use crate::segment::SegmentView;
use vstd::prelude::*;

verus! {

/// One positioned write: where it starts, and the bytes it puts there.
pub struct Write {
    /// The position of the first byte written.
    pub offset: nat,
    /// The bytes written.
    pub bytes: Seq<u8>,
}

impl Write {
    /// The position behind the last byte written.
    pub open spec fn end(self) -> nat {
        self.offset + self.bytes.len()
    }

    /// The write reaches position `p`.
    pub open spec fn covers(self, p: int) -> bool {
        self.offset <= p < self.end()
    }

    /// The write copies a stretch of `resource` to the position it has there.
    pub open spec fn copies(self, resource: Seq<u8>) -> bool {
        &&& self.end() <= resource.len()
        &&& self.bytes == resource.subrange(self.offset as int, self.end() as int)
    }
}

/// The file after `write`.  The bytes written replace what was there; a file
/// that ends before the write ends grows, and a gap between its old end and
/// the start of the write reads as zeros.  A write of no bytes changes
/// nothing.
pub open spec fn write_at(file: Seq<u8>, write: Write) -> Seq<u8> {
    if write.bytes.len() == 0 {
        file
    } else {
        Seq::new(
            if file.len() >= write.end() {
                file.len()
            } else {
                write.end()
            },
            |p: int|
                if write.covers(p) {
                    write.bytes[p - write.offset]
                } else if p < file.len() {
                    file[p]
                } else {
                    0u8
                },
        )
    }
}

/// The file after `writes`, made one after the other.
pub open spec fn write_all(file: Seq<u8>, writes: Seq<Write>) -> Seq<u8>
    decreases writes.len(),
{
    if writes.len() == 0 {
        file
    } else {
        write_at(write_all(file, writes.drop_last()), writes.last())
    }
}

/// Some write of `writes` reaches position `p`.
pub open spec fn reached(writes: Seq<Write>, p: int) -> bool {
    exists|k: int| 0 <= k < writes.len() && (#[trigger] writes[k]).covers(p)
}

/// Writes that each copy a stretch of the resource make, from an empty file,
/// a file no longer than the resource that agrees with it wherever a write
/// has reached.
pub proof fn lemma_copies_agree(resource: Seq<u8>, writes: Seq<Write>)
    requires
        forall|k: int| 0 <= k < writes.len() ==> (#[trigger] writes[k]).copies(resource),
    ensures
        write_all(Seq::empty(), writes).len() <= resource.len(),
        forall|p: int|
            reached(writes, p) ==> 0 <= p < write_all(Seq::empty(), writes).len() && write_all(
                Seq::empty(),
                writes,
            )[p] == resource[p],
    decreases writes.len(),
{
    if writes.len() > 0 {
        let front = writes.drop_last();
        let last = writes.last();
        let after = write_all(Seq::empty(), writes);
        assert forall|k: int| 0 <= k < front.len() implies (#[trigger] front[k]).copies(
            resource,
        ) by {
            assert(front[k] == writes[k]);
        }
        lemma_copies_agree(resource, front);
        assert(last == writes[writes.len() - 1]);
        assert(last.copies(resource));
        assert forall|p: int| reached(writes, p) implies 0 <= p < after.len() && after[p]
            == resource[p] by {
            let k = choose|k: int| 0 <= k < writes.len() && (#[trigger] writes[k]).covers(p);
            if last.covers(p) {
                assert(after[p] == last.bytes[p - last.offset]);
            } else {
                assert(k < front.len());
                assert(front[k].covers(p));
                assert(reached(front, p));
            }
        }
    }
}

/// Writes that each copy a stretch of the resource, and between them reach
/// every position of it, make the resource, in whatever order they come.
pub proof fn lemma_copies_make_resource(resource: Seq<u8>, writes: Seq<Write>)
    requires
        forall|k: int| 0 <= k < writes.len() ==> (#[trigger] writes[k]).copies(resource),
        forall|p: int| 0 <= p < resource.len() ==> reached(writes, p),
    ensures
        write_all(Seq::empty(), writes) == resource,
{
    lemma_copies_agree(resource, writes);
    let file = write_all(Seq::empty(), writes);
    if resource.len() > 0 {
        assert(reached(writes, resource.len() - 1));
    }
    assert(file =~= resource);
}

/// A chunk that a cursor has placed, holding the bytes that the resource has
/// at that place, is a write that copies the resource, and it reaches no
/// byte outside the range of the cursor.
pub proof fn lemma_placed_chunk_copies(resource: Seq<u8>, cursor: SegmentView, chunk: Seq<u8>)
    requires
        cursor.wf(),
        cursor.end < resource.len(),
        chunk.len() <= cursor.remaining(),
        chunk == resource.subrange(cursor.offset as int, cursor.offset + chunk.len()),
    ensures
        (Write { offset: cursor.offset as nat, bytes: chunk }).copies(resource),
        forall|p: int|
            (Write { offset: cursor.offset as nat, bytes: chunk }).covers(p) ==> cursor.start <= p
                <= cursor.end,
{
}

/// The lengths of a run of chunks, added up.
pub open spec fn total_len(lens: Seq<nat>) -> nat
    decreases lens.len(),
{
    if lens.len() == 0 {
        0
    } else {
        total_len(lens.drop_last()) + lens.last()
    }
}

/// Where a cursor that began at `start` stands after the first `k` chunks of
/// the lengths `lens`: behind all of them.
pub open spec fn chunk_offset(start: nat, lens: Seq<nat>, k: int) -> nat {
    start + total_len(lens.take(k))
}

/// The write of chunk `k` of a segment that begins at `start`, where the
/// body of the reply holds the bytes of the resource and arrives in chunks
/// of the lengths `lens`.
pub open spec fn chunk_write(resource: Seq<u8>, start: nat, lens: Seq<nat>, k: int) -> Write {
    Write {
        offset: chunk_offset(start, lens, k),
        bytes: resource.subrange(
            chunk_offset(start, lens, k) as int,
            (chunk_offset(start, lens, k) + lens[k]) as int,
        ),
    }
}

/// The writes of one segment, chunk by chunk.
pub open spec fn chunk_writes(resource: Seq<u8>, start: nat, lens: Seq<nat>) -> Seq<Write> {
    Seq::new(lens.len(), |k: int| chunk_write(resource, start, lens, k))
}

/// Each chunk begins where the chunk before it ends, and no run of first
/// chunks is longer than all of them together.
pub proof fn lemma_total_len_take(lens: Seq<nat>, k: int)
    requires
        0 <= k <= lens.len(),
    ensures
        total_len(lens.take(k)) <= total_len(lens),
        k < lens.len() ==> total_len(lens.take(k + 1)) == total_len(lens.take(k)) + lens[k],
    decreases lens.len() - k,
{
    if k == lens.len() {
        assert(lens.take(k) =~= lens);
    } else {
        assert(lens.take(k + 1).drop_last() =~= lens.take(k));
        lemma_total_len_take(lens, k + 1);
    }
}

/// Every position below the sum of the lengths lies in one of the chunks.
pub proof fn lemma_chunk_of_position(lens: Seq<nat>, q: int) -> (k: int)
    requires
        0 <= q < total_len(lens),
    ensures
        0 <= k < lens.len(),
        total_len(lens.take(k)) <= q < total_len(lens.take(k)) + lens[k],
    decreases lens.len(),
{
    let front = lens.drop_last();
    if q >= total_len(front) {
        assert(lens.take(lens.len() - 1) =~= front);
        lens.len() - 1
    } else {
        let k = lemma_chunk_of_position(front, q);
        assert(front.take(k) =~= lens.take(k));
        k
    }
}

/// The chunks that a cursor places until its range is full cover the range.
/// Where the lengths of the chunks add up to the length of the range, and
/// each chunk is written where the cursor stood when it came, behind the
/// chunks before it, then every write copies the resource, none reaches
/// outside the range, and together they reach every byte of it.
pub proof fn lemma_chunks_cover_range(resource: Seq<u8>, range: (u64, u64), lens: Seq<nat>)
    requires
        resource.len() <= u64::MAX,
        range.0 <= range.1 < resource.len(),
        total_len(lens) == range_len(range),
    ensures
        forall|k: int|
            0 <= k < lens.len() ==> {
                let write = #[trigger] chunk_writes(resource, range.0 as nat, lens)[k];
                &&& write.copies(resource)
                &&& range.0 <= write.offset
                &&& write.end() <= range.1 + 1
            },
        forall|p: int|
            range.0 <= p <= range.1 ==> reached(chunk_writes(resource, range.0 as nat, lens), p),
{
    let start = range.0 as nat;
    let writes = chunk_writes(resource, start, lens);
    assert forall|k: int| 0 <= k < lens.len() implies {
        let write = #[trigger] writes[k];
        &&& write.copies(resource)
        &&& range.0 <= write.offset
        &&& write.end() <= range.1 + 1
    } by {
        lemma_total_len_take(lens, k);
        lemma_total_len_take(lens, k + 1);
        let cursor = SegmentView {
            start: range.0,
            end: range.1,
            offset: chunk_offset(start, lens, k) as u64,
        };
        lemma_placed_chunk_copies(resource, cursor, writes[k].bytes);
    }
    assert forall|p: int| range.0 <= p <= range.1 implies reached(writes, p) by {
        let k = lemma_chunk_of_position(lens, p - range.0);
        lemma_total_len_take(lens, k);
        lemma_total_len_take(lens, k + 1);
        assert(writes[k].bytes.len() == lens[k]);
        assert(writes[k].covers(p));
    }
}

/// `write` is the write of some chunk of some segment of a download that
/// cuts the resource into `ranges`, the body of segment `i` arriving in
/// chunks of the lengths `chunks[i]`.
pub open spec fn is_chunk_write(
    resource: Seq<u8>,
    ranges: Seq<(u64, u64)>,
    chunks: Seq<Seq<nat>>,
    write: Write,
) -> bool {
    exists|i: int, k: int|
        0 <= i < ranges.len() && 0 <= k < chunks[i].len() && write == #[trigger] chunk_write(
            resource,
            ranges[i].0 as nat,
            chunks[i],
            k,
        )
}

/// However a resource is cut, into whatever chunks the body of each segment
/// arrives, and however the chunks of different segments fall between each
/// other: where every segment is filled, each chunk written where the
/// cursor of its segment stood, the file that was empty ends up equal to the
/// resource, byte for byte.
pub proof fn lemma_chunks_make_resource(
    resource: Seq<u8>,
    segment_size: u64,
    chunks: Seq<Seq<nat>>,
    writes: Seq<Write>,
)
    requires
        resource.len() <= u64::MAX,
        segment_size > 0,
        chunks.len() == partition(resource.len() as u64, segment_size).len(),
        forall|i: int|
            0 <= i < chunks.len() ==> total_len(#[trigger] chunks[i]) == range_len(
                partition(resource.len() as u64, segment_size)[i],
            ),
        forall|j: int|
            0 <= j < writes.len() ==> is_chunk_write(
                resource,
                partition(resource.len() as u64, segment_size),
                chunks,
                #[trigger] writes[j],
            ),
        forall|i: int, k: int|
            0 <= i < chunks.len() && 0 <= k < chunks[i].len() ==> writes.contains(
                #[trigger] chunk_write(
                    resource,
                    partition(resource.len() as u64, segment_size)[i].0 as nat,
                    chunks[i],
                    k,
                ),
            ),
    ensures
        write_all(Seq::empty(), writes) == resource,
{
    let total = resource.len() as u64;
    let ranges = partition(total, segment_size);
    assert forall|j: int| 0 <= j < writes.len() implies (#[trigger] writes[j]).copies(
        resource,
    ) by {
        let (i, k) = choose|i: int, k: int|
            0 <= i < ranges.len() && 0 <= k < chunks[i].len() && writes[j] == #[trigger] chunk_write(
                resource,
                ranges[i].0 as nat,
                chunks[i],
                k,
            );
        lemma_partition_entry(total, segment_size, i);
        lemma_chunks_cover_range(resource, ranges[i], chunks[i]);
        assert(writes[j] == chunk_writes(resource, ranges[i].0 as nat, chunks[i])[k]);
    }
    assert forall|p: int| 0 <= p < resource.len() implies reached(writes, p) by {
        let seg = segment_size as int;
        let i = p / seg;
        assert(i * seg <= p < (i + 1) * seg && 0 <= i) by (nonlinear_arith)
            requires
                i == p / seg,
                seg > 0,
                0 <= p,
        ;
        lemma_segment_index(i, total as nat, segment_size as nat);
        lemma_partition_entry(total, segment_size, i);
        lemma_chunks_cover_range(resource, ranges[i], chunks[i]);
        let of_segment = chunk_writes(resource, ranges[i].0 as nat, chunks[i]);
        assert(reached(of_segment, p));
        let k = choose|k: int| 0 <= k < of_segment.len() && (#[trigger] of_segment[k]).covers(p);
        let write = chunk_write(resource, ranges[i].0 as nat, chunks[i], k);
        assert(of_segment[k] == write);
        assert(writes.contains(write));
        let j = choose|j: int| 0 <= j < writes.len() && writes[j] == write;
        assert(writes[j].covers(p));
    }
    lemma_copies_make_resource(resource, writes);
}

/// `order` names each of the `n` segments once: a way in which they may
/// finish.
pub open spec fn is_order(order: Seq<int>, n: nat) -> bool {
    &&& order.len() == n
    &&& forall|k: int| 0 <= k < order.len() ==> 0 <= #[trigger] order[k] < n
    &&& forall|i: int| 0 <= i < n ==> #[trigger] order.contains(i)
}

/// The write that puts the bytes of `range` where they belong.
pub open spec fn segment_write(resource: Seq<u8>, range: (u64, u64)) -> Write {
    Write {
        offset: range.0 as nat,
        bytes: resource.subrange(range.0 as int, range.1 + 1),
    }
}

/// The writes of a download whose segments finish in the order `order`,
/// each segment written in one piece.
pub open spec fn segment_writes(resource: Seq<u8>, ranges: Seq<(u64, u64)>, order: Seq<int>) -> Seq<
    Write,
> {
    Seq::new(order.len(), |k: int| segment_write(resource, ranges[order[k]]))
}

/// However a resource is cut, and in whatever order the segments finish:
/// the bytes of each range, written at the start of that range into a file
/// that was empty, make a file equal to the resource, byte for byte.  An
/// empty resource leaves the file empty.
pub proof fn lemma_segments_make_resource(resource: Seq<u8>, segment_size: u64, order: Seq<int>)
    requires
        resource.len() <= u64::MAX,
        segment_size > 0,
        is_order(order, partition(resource.len() as u64, segment_size).len()),
    ensures
        write_all(
            Seq::empty(),
            segment_writes(resource, partition(resource.len() as u64, segment_size), order),
        ) == resource,
{
    let total = resource.len() as u64;
    let ranges = partition(total, segment_size);
    let writes = segment_writes(resource, ranges, order);
    assert forall|k: int| 0 <= k < writes.len() implies (#[trigger] writes[k]).copies(
        resource,
    ) by {
        lemma_partition_entry(total, segment_size, order[k]);
    }
    assert forall|p: int| 0 <= p < resource.len() implies reached(writes, p) by {
        let seg = segment_size as int;
        let i = p / seg;
        assert(i * seg <= p < (i + 1) * seg && 0 <= i) by (nonlinear_arith)
            requires
                i == p / seg,
                seg > 0,
                0 <= p,
        ;
        lemma_segment_index(i, total as nat, segment_size as nat);
        lemma_partition_entry(total, segment_size, i);
        assert(order.contains(i));
        let k = choose|k: int| 0 <= k < order.len() && order[k] == i;
        assert(writes[k].covers(p));
    }
    lemma_copies_make_resource(resource, writes);
}

/// Two downloads of one resource with the same segment size asked for end
/// in the same file, whatever their numbers of workers and whatever the
/// orders in which their segments finish.
pub proof fn lemma_workers_do_not_matter(
    resource: Seq<u8>,
    segment_size: u64,
    one: usize,
    other: usize,
    order_one: Seq<int>,
    order_other: Seq<int>,
)
    requires
        resource.len() <= u64::MAX,
        segment_size > 0,
        one > 0,
        other > 0,
        is_order(order_one, partition(resource.len() as u64, segment_size).len()),
        is_order(order_other, partition(resource.len() as u64, segment_size).len()),
    ensures
        planned_ranges(resource.len() as u64, Some(segment_size), one) == Ok::<
            Seq<(u64, u64)>,
            Error,
        >(partition(resource.len() as u64, segment_size)),
        planned_ranges(resource.len() as u64, Some(segment_size), other) == planned_ranges(
            resource.len() as u64,
            Some(segment_size),
            one,
        ),
        write_all(
            Seq::empty(),
            segment_writes(resource, partition(resource.len() as u64, segment_size), order_one),
        ) == write_all(
            Seq::empty(),
            segment_writes(resource, partition(resource.len() as u64, segment_size), order_other),
        ),
{
    lemma_segments_make_resource(resource, segment_size, order_one);
    lemma_segments_make_resource(resource, segment_size, order_other);
}

} // verus!
