//! What is settled before any segment is fetched: the name of the
//! destination file, the size of the segments, and the ranges themselves.

use crate::error::Error;
use crate::range::{lemma_partition_empty, partition, split_data, tiles};
use vstd::prelude::*;

verus! {

/// The position in `url` at which its last path component begins: directly
/// behind the last `/`, or at the very start where there is none.
pub open spec fn name_start(url: Seq<char>) -> int
    decreases url.len(),
{
    if url.len() == 0 || url.last() == '/' {
        url.len() as int
    } else {
        name_start(url.drop_last())
    }
}

/// The last path component of `url`: what follows its last `/`, or all of it
/// where there is none.
pub open spec fn file_name_of(url: Seq<char>) -> Seq<char> {
    url.skip(name_start(url))
}

/// The last path component begins at `k` if a `/` stands before `k`, or `k`
/// is the start, and no `/` follows.
pub proof fn lemma_name_start(url: Seq<char>, k: int)
    requires
        0 <= k <= url.len(),
        k == 0 || url[k - 1] == '/',
        forall|j: int| k <= j < url.len() ==> url[j] != '/',
    ensures
        name_start(url) == k,
    decreases url.len(),
{
    if k < url.len() {
        lemma_name_start(url.drop_last(), k);
    }
}

/// The last path component holds no `/`, and what stands before it is empty
/// or ends with one.
pub proof fn lemma_file_name(url: Seq<char>)
    ensures
        0 <= name_start(url) <= url.len(),
        name_start(url) == 0 || url[name_start(url) - 1] == '/',
        forall|j: int| 0 <= j < file_name_of(url).len() ==> file_name_of(url)[j] != '/',
        url == url.take(name_start(url)) + file_name_of(url),
    decreases url.len(),
{
    if !(url.len() == 0 || url.last() == '/') {
        lemma_file_name(url.drop_last());
        let k = name_start(url);
        assert forall|j: int| 0 <= j < file_name_of(url).len() implies file_name_of(url)[j]
            != '/' by {
            if k + j < url.len() - 1 {
                assert(file_name_of(url.drop_last())[j] == url[k + j]);
            }
        }
    }
    assert(url =~= url.take(name_start(url)) + file_name_of(url));
}

/// The name under which a download is stored: the last path component of
/// its address.
pub fn file_name(url: &str) -> (name: &str)
    ensures
        name@ == file_name_of(url@),
{
    let len: usize = url.unicode_len();
    let mut start: usize = len;
    while start > 0 && url.get_char(start - 1) != '/'
        invariant
            start <= len,
            len == url@.len(),
            forall|j: int| start <= j < len ==> url@[j] != '/',
        decreases start,
    {
        start = start - 1;
    }
    proof {
        lemma_name_start(url@, start as int);
    }
    url.substring_char(start, len)
}

/// The largest number of kilobytes that 64 bits can count in bytes.
pub const MAX_KB: u64 = 0x3f_ffff_ffff_ffff;

/// The largest number of megabytes that 64 bits can count in bytes.
pub const MAX_MB: u64 = 0xfff_ffff_ffff;

/// The bytes that `kb` kilobytes and `mb` megabytes make together.
pub open spec fn bytes_of_parts(kb: u64, mb: u64) -> int {
    kb * 1024 + mb * 1024 * 1024
}

/// The segment size that a caller asks for by a number of kilobytes and a
/// number of megabytes, which are added.  Nothing asked for (both zero) is
/// `None`: the size is then derived from the size of the resource.  A sum
/// beyond 64 bits is not a usable size.
pub fn segment_size_of(kb: u64, mb: u64) -> (size: Result<Option<u64>, Error>)
    ensures
        size == if bytes_of_parts(kb, mb) > u64::MAX {
            Err::<Option<u64>, Error>(Error::ConfigError)
        } else if bytes_of_parts(kb, mb) == 0 {
            Ok::<Option<u64>, Error>(None)
        } else {
            Ok::<Option<u64>, Error>(Some(bytes_of_parts(kb, mb) as u64))
        },
{
    if kb > MAX_KB || mb > MAX_MB {
        return Err(Error::ConfigError);
    }
    let from_kb: u64 = kb * 1024;
    let from_mb: u64 = mb * 1024 * 1024;
    if from_kb > u64::MAX - from_mb {
        return Err(Error::ConfigError);
    }
    let bytes: u64 = from_kb + from_mb;
    if bytes == 0 {
        Ok(None)
    } else {
        Ok(Some(bytes))
    }
}

/// Calls `num_cpus::get`, which counts the CPUs that this process may use.
/// Not proved: that the count is at least one, as the documentation of the
/// function promises.  The count itself is the machine's to give.
#[verifier::external_body]
fn available_cpus() -> (count: usize)
    ensures
        count >= 1,
{
    num_cpus::get()
}

/// The number of workers of a download: the number asked for, or else as
/// many as this machine has CPUs, which is at least one.
pub fn worker_count(requested: Option<usize>) -> (count: usize)
    ensures
        match requested {
            Some(n) => count == n,
            None => count >= 1,
        },
{
    match requested {
        Some(n) => n,
        None => available_cpus(),
    }
}

/// The segment size that a download works with: the one asked for, or else
/// the size of the resource divided by the number of workers, rounded down.
/// An empty resource needs no size, so where none is asked for there is
/// none: `None`.  A download cannot be planned without workers, nor with
/// segments of no bytes, which come of a size of zero asked for and of a
/// resource that is not empty but has fewer bytes than there are workers.
pub open spec fn effective_segment_size(
    segment_size: Option<u64>,
    file_size: u64,
    num_threads: usize,
) -> Result<Option<u64>, Error> {
    if num_threads == 0 {
        Err(Error::ConfigError)
    } else {
        match segment_size {
            Some(size) => if size == 0 {
                Err(Error::ConfigError)
            } else {
                Ok(Some(size))
            },
            None => if file_size == 0 {
                Ok(None)
            } else if file_size < num_threads {
                Err(Error::ConfigError)
            } else {
                Ok(Some(file_size / (num_threads as u64)))
            },
        }
    }
}

/// A segment size that a download works with is never zero.
pub proof fn lemma_effective_size(segment_size: Option<u64>, file_size: u64, num_threads: usize)
    ensures
        effective_segment_size(segment_size, file_size, num_threads) matches Ok(Some(size))
            ==> size > 0,
{
    if segment_size.is_none() && 0 < num_threads <= file_size {
        let workers = num_threads as u64;
        assert(file_size / workers > 0) by (nonlinear_arith)
            requires
                0 < workers <= file_size,
        ;
    }
}

/// Settles the segment size of a download.  The size is never zero; it is
/// `None` only for an empty resource with no size asked for.
pub fn resolve_segment_size(segment_size: Option<u64>, file_size: u64, num_threads: usize) -> (size:
    Result<Option<u64>, Error>)
    ensures
        size == effective_segment_size(segment_size, file_size, num_threads),
        size matches Ok(Some(n)) ==> n > 0,
{
    if num_threads == 0 {
        return Err(Error::ConfigError);
    }
    match segment_size {
        Some(size) => {
            if size == 0 {
                Err(Error::ConfigError)
            } else {
                Ok(Some(size))
            }
        },
        None => {
            let workers: u64 = num_threads as u64;
            if file_size == 0 {
                Ok(None)
            } else if file_size < workers {
                Err(Error::ConfigError)
            } else {
                proof {
                    lemma_effective_size(segment_size, file_size, num_threads);
                }
                Ok(Some(file_size / workers))
            }
        },
    }
}

/// The ranges that a download fetches: the resource cut by its effective
/// segment size.  An empty resource has no ranges, whether a size was asked
/// for or not.
pub open spec fn planned_ranges(file_size: u64, segment_size: Option<u64>, num_threads: usize)
    -> Result<Seq<(u64, u64)>, Error> {
    match effective_segment_size(segment_size, file_size, num_threads) {
        Ok(Some(size)) => Ok(partition(file_size, size)),
        Ok(None) => Ok(Seq::empty()),
        Err(e) => Err(e),
    }
}

/// Plans a download of `file_size` bytes: settles the segment size and cuts
/// the resource into ranges.  Fails, before anything is cut, where there
/// are no workers, where a segment size of zero is asked for, and where a
/// resource that is not empty has fewer bytes than there are workers.  The
/// plan of an empty resource is the empty list of ranges.
pub fn plan_segments(file_size: u64, segment_size: Option<u64>, num_threads: usize) -> (plan:
    Result<Vec<(u64, u64)>, Error>)
    ensures
        match plan {
            Ok(ranges) => {
                &&& planned_ranges(file_size, segment_size, num_threads) == Ok::<
                    Seq<(u64, u64)>,
                    Error,
                >(ranges@)
                &&& tiles(ranges@, file_size)
            },
            Err(e) => planned_ranges(file_size, segment_size, num_threads) == Err::<
                Seq<(u64, u64)>,
                Error,
            >(e),
        },
{
    match resolve_segment_size(segment_size, file_size, num_threads) {
        Ok(Some(size)) => Ok(split_data(file_size, size)),
        Ok(None) => Ok(Vec::new()),
        Err(e) => Err(e),
    }
}

/// The plan of an empty resource is the empty list of ranges, with a segment
/// size asked for or without, as long as there is a worker and the size
/// asked for is not zero.
pub proof fn lemma_plan_of_nothing(segment_size: Option<u64>, num_threads: usize)
    requires
        num_threads > 0,
        segment_size != Some(0u64),
    ensures
        planned_ranges(0, segment_size, num_threads) == Ok::<Seq<(u64, u64)>, Error>(Seq::empty()),
{
    match segment_size {
        Some(size) => {
            lemma_partition_empty(size);
        },
        None => {},
    }
}

/// With a segment size asked for, the number of workers has no part in the
/// plan: any two numbers of workers, neither of them zero, give the same
/// ranges.
pub proof fn lemma_plan_ignores_workers(file_size: u64, size: u64, one: usize, other: usize)
    requires
        one > 0,
        other > 0,
    ensures
        planned_ranges(file_size, Some(size), one) == planned_ranges(file_size, Some(size), other),
{
}

} // verus!
