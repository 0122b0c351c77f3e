use steal::{
    split_data, DownloadJob, Error, JobAction, JobEvent, JobState, ProgressCounter, SegmentCursor,
};

fn resource(len: usize) -> Vec<u8> {
    let mut state: u32 = 0x2545_f491;
    (0..len)
        .map(|_| {
            state = state.wrapping_mul(1_664_525).wrapping_add(1_013_904_223);
            (state >> 24) as u8
        })
        .collect()
}

fn write_at(file: &mut Vec<u8>, offset: u64, bytes: &[u8]) {
    if bytes.is_empty() {
        return;
    }
    let offset = offset as usize;
    if file.len() < offset + bytes.len() {
        file.resize(offset + bytes.len(), 0);
    }
    file[offset..offset + bytes.len()].copy_from_slice(bytes);
}

fn shuffled(n: usize, seed: u64) -> Vec<usize> {
    let mut order: Vec<usize> = (0..n).collect();
    let mut state = seed;
    for i in (1..n).rev() {
        state = state.wrapping_mul(6_364_136_223_846_793_005).wrapping_add(1_442_695_040_888_963_407);
        let j = (state >> 33) as usize % (i + 1);
        order.swap(i, j);
    }
    order
}

fn fetch_segment(
    source: &[u8],
    range: (u64, u64),
    chunk: usize,
    file: &mut Vec<u8>,
    progress: &mut ProgressCounter,
) -> Result<(), Error> {
    let body = &source[range.0 as usize..=range.1 as usize];
    let mut cursor = SegmentCursor::new(range.0, range.1)?;
    for piece in body.chunks(chunk) {
        let at = cursor.advance(piece.len())?;
        write_at(file, at, piece);
        progress.inc(piece.len() as u64);
    }
    assert!(cursor.is_complete());
    Ok(())
}

fn download(source: &[u8], segment_size: Option<u64>, workers: usize, seed: u64, chunk: usize) -> Vec<u8> {
    let mut file: Vec<u8> = Vec::new();
    let job = DownloadJob::new("http://host/data.bin", segment_size, workers);
    let (job, action) = job.step(JobEvent::Start);
    assert_eq!(action, JobAction::Probe);
    let (job, action) = job.step(JobEvent::Probed(Ok(source.len() as u64)));
    assert_eq!(action, JobAction::Partition);
    let (mut job, action) = job.step(JobEvent::Partition);
    if action == JobAction::Complete {
        return file;
    }
    assert_eq!(action, JobAction::Spawn);
    let ranges = job.ranges().clone();
    let mut progress = ProgressCounter::new(job.total_size());
    let order = shuffled(ranges.len(), seed);
    for (done, index) in order.iter().enumerate() {
        let outcome = fetch_segment(source, ranges[*index], chunk, &mut file, &mut progress);
        let (next, action) = job.step(JobEvent::SegmentFinished(outcome));
        if done + 1 < order.len() {
            assert_eq!(action, JobAction::Wait);
        } else {
            assert_eq!(action, JobAction::Complete);
        }
        job = next;
    }
    assert_eq!(job.state(), JobState::Completed);
    assert_eq!(progress.written(), source.len() as u64);
    file
}

#[test]
fn segments_written_in_any_order_make_the_resource() {
    for len in [1usize, 2, 9, 10, 11, 100, 257, 1000] {
        let source = resource(len);
        for seg in [1u64, 3, 10, 40, 256, 5000] {
            for seed in 0..5u64 {
                let file = download(&source, Some(seg), 4, seed, 7);
                assert_eq!(file, source);
            }
        }
    }
}

#[test]
fn chunks_of_any_size_make_the_resource() {
    let source = resource(500);
    for chunk in [1usize, 2, 5, 16, 63, 64, 65, 500, 4096] {
        assert_eq!(download(&source, Some(64), 4, 11, chunk), source);
    }
}

#[test]
fn interleaved_chunks_make_the_resource() {
    let source = resource(100);
    let ranges = split_data(100, 40);
    let mut cursors: Vec<SegmentCursor> =
        ranges.iter().map(|range| SegmentCursor::new(range.0, range.1).unwrap()).collect();
    let mut file: Vec<u8> = Vec::new();
    let mut turn = 2usize;
    while cursors.iter().any(|cursor| !cursor.is_complete()) {
        let cursor = &mut cursors[turn % 3];
        turn += 2;
        if cursor.is_complete() {
            continue;
        }
        let len = std::cmp::min(9, cursor.remaining()) as usize;
        let at = cursor.advance(len).unwrap();
        let piece = &source[at as usize..at as usize + len];
        write_at(&mut file, at, piece);
    }
    assert_eq!(file, source);
}

#[test]
fn one_worker_and_many_make_the_same_file() {
    let source = resource(777);
    let alone = download(&source, Some(50), 1, 0, 13);
    for workers in [2usize, 3, 8, 64] {
        for seed in 1..6u64 {
            assert_eq!(download(&source, Some(50), workers, seed, 13), alone);
        }
    }
    assert_eq!(alone, source);
}

#[test]
fn empty_resource_makes_an_empty_file() {
    let file = download(&[], Some(40), 4, 3, 8);
    assert!(file.is_empty());
    let file = download(&[], None, 4, 3, 8);
    assert!(file.is_empty());
}

#[test]
fn size_derived_from_the_workers_makes_the_resource() {
    let source = resource(1000);
    for workers in [1usize, 2, 3, 7, 16, 1000] {
        assert_eq!(download(&source, None, workers, 5, 32), source);
    }
}

#[test]
fn failed_segment_leaves_the_others_in_place() {
    let source = resource(100);
    let job = DownloadJob::new("http://host/data.bin", Some(40), 3);
    let (job, _) = job.step(JobEvent::Start);
    let (job, _) = job.step(JobEvent::Probed(Ok(100)));
    let (job, action) = job.step(JobEvent::Partition);
    assert_eq!(action, JobAction::Spawn);
    let ranges = job.ranges().clone();
    assert_eq!(ranges.len(), 3);

    let mut file: Vec<u8> = Vec::new();
    let mut progress = ProgressCounter::new(100);
    let last = fetch_segment(&source, ranges[2], 6, &mut file, &mut progress);
    let (job, action) = job.step(JobEvent::SegmentFinished(last));
    assert_eq!(action, JobAction::Wait);
    let middle = steal::check_status(Some(404));
    let (job, action) = job.step(JobEvent::SegmentFinished(middle));
    assert_eq!(action, JobAction::Wait);
    let first = fetch_segment(&source, ranges[0], 6, &mut file, &mut progress);
    let (job, action) = job.step(JobEvent::SegmentFinished(first));
    assert_eq!(action, JobAction::Fail(Error::RemoteError));
    assert_eq!(job.state(), JobState::Failed);

    assert_eq!(file.len(), 100);
    assert_eq!(file[0..40], source[0..40]);
    assert_eq!(file[80..100], source[80..100]);
    assert_eq!(file[40..80], [0u8; 40]);
    assert_eq!(progress.written(), 60);
}

#[test]
fn reply_longer_than_its_range_is_not_written() {
    let source = resource(100);
    let mut file: Vec<u8> = Vec::new();
    let mut cursor = SegmentCursor::new(0, 39).unwrap();
    let mut outcome = Ok(());
    for piece in source.chunks(16) {
        match cursor.advance(piece.len()) {
            Ok(at) => write_at(&mut file, at, piece),
            Err(e) => {
                outcome = Err(e);
                break;
            }
        }
    }
    assert_eq!(outcome, Err(Error::ProtocolError));
    assert_eq!(file.len(), 32);
    assert_eq!(file[..], source[..32]);
    assert_eq!(cursor.offset(), 32);
}
