use steal::{DownloadJob, Error, JobAction, JobEvent, JobState};

fn fetching(total: u64, segment_size: Option<u64>, workers: usize) -> DownloadJob {
    let job = DownloadJob::new("http://host/file.bin", segment_size, workers);
    let (job, action) = job.step(JobEvent::Start);
    assert_eq!(action, JobAction::Probe);
    let (job, action) = job.step(JobEvent::Probed(Ok(total)));
    assert_eq!(action, JobAction::Partition);
    let (job, action) = job.step(JobEvent::Partition);
    assert_eq!(action, JobAction::Spawn);
    assert_eq!(job.state(), JobState::FetchingSegments);
    job
}

#[test]
fn job_begins_as_created() {
    let job = DownloadJob::new("http://ipv4.download.thinkbroadband.com/200MB.zip", Some(1024), 8);
    assert_eq!(job.state(), JobState::Created);
    assert_eq!(job.url(), "http://ipv4.download.thinkbroadband.com/200MB.zip");
    assert_eq!(job.file_name(), "200MB.zip");
    assert_eq!(job.total_size(), 0);
    assert!(job.ranges().is_empty());
    assert_eq!(job.failure(), None);
}

#[test]
fn job_runs_to_completion() {
    let job = DownloadJob::new("http://host/file.bin", Some(40), 4);
    let (job, action) = job.step(JobEvent::Start);
    assert_eq!(action, JobAction::Probe);
    assert_eq!(job.state(), JobState::Probing);
    let (job, action) = job.step(JobEvent::Probed(Ok(100)));
    assert_eq!(action, JobAction::Partition);
    assert_eq!(job.state(), JobState::Partitioned);
    assert_eq!(job.total_size(), 100);
    assert!(job.ranges().is_empty());
    let (job, action) = job.step(JobEvent::Partition);
    assert_eq!(action, JobAction::Spawn);
    assert_eq!(job.state(), JobState::FetchingSegments);
    assert_eq!(job.ranges(), &vec![(0, 39), (40, 79), (80, 99)]);
    let (job, action) = job.step(JobEvent::SegmentFinished(Ok(())));
    assert_eq!(action, JobAction::Wait);
    let (job, action) = job.step(JobEvent::SegmentFinished(Ok(())));
    assert_eq!(action, JobAction::Wait);
    assert_eq!(job.state(), JobState::FetchingSegments);
    let (job, action) = job.step(JobEvent::SegmentFinished(Ok(())));
    assert_eq!(action, JobAction::Complete);
    assert_eq!(job.state(), JobState::Completed);
    assert_eq!(job.failure(), None);
    assert_eq!(job.ranges(), &vec![(0, 39), (40, 79), (80, 99)]);
}

#[test]
fn job_fails_when_the_reply_states_no_size() {
    let job = DownloadJob::new("http://host/file.bin", Some(40), 4);
    let (job, _) = job.step(JobEvent::Start);
    let reply = reqwest::header::HeaderMap::new();
    let (job, action) = job.step(JobEvent::Probed(steal::probe_result(Some((200, &reply)))));
    assert_eq!(action, JobAction::Fail(Error::ProtocolError));
    assert_eq!(job.state(), JobState::Failed);
    assert_eq!(job.failure(), Some(Error::ProtocolError));
    assert!(job.ranges().is_empty());
    let (job, action) = job.step(JobEvent::Partition);
    assert_eq!(action, JobAction::Ignore);
    assert_eq!(job.state(), JobState::Failed);
    assert!(job.ranges().is_empty());
    let (job, action) = job.step(JobEvent::SegmentFinished(Ok(())));
    assert_eq!(action, JobAction::Ignore);
    assert_eq!(job.state(), JobState::Failed);
    assert_eq!(job.failure(), Some(Error::ProtocolError));
}

#[test]
fn job_fails_when_the_probe_is_turned_away() {
    let job = DownloadJob::new("http://host/file.bin", None, 4);
    let (job, _) = job.step(JobEvent::Start);
    let mut reply = reqwest::header::HeaderMap::new();
    reply.insert(
        reqwest::header::CONTENT_LENGTH,
        reqwest::header::HeaderValue::from_static("100"),
    );
    let (job, action) = job.step(JobEvent::Probed(steal::probe_result(Some((403, &reply)))));
    assert_eq!(action, JobAction::Fail(Error::RemoteError));
    assert_eq!(job.state(), JobState::Failed);
}

#[test]
fn job_fails_when_the_file_cannot_be_created() {
    let job = DownloadJob::new("http://host/", None, 4);
    assert_eq!(job.file_name(), "");
    let (job, _) = job.step(JobEvent::Start);
    let (job, action) = job.step(JobEvent::Probed(Err(Error::IOError)));
    assert_eq!(action, JobAction::Fail(Error::IOError));
    assert_eq!(job.failure(), Some(Error::IOError));
}

#[test]
fn job_reports_the_failure_of_one_segment_of_three() {
    let job = fetching(100, Some(40), 4);
    let (job, action) = job.step(JobEvent::SegmentFinished(Ok(())));
    assert_eq!(action, JobAction::Wait);
    assert_eq!(job.failure(), None);
    let not_found = steal::check_status(Some(404));
    let (job, action) = job.step(JobEvent::SegmentFinished(not_found));
    assert_eq!(action, JobAction::Wait);
    assert_eq!(job.state(), JobState::FetchingSegments);
    assert_eq!(job.failure(), Some(Error::RemoteError));
    let (job, action) = job.step(JobEvent::SegmentFinished(Ok(())));
    assert_eq!(action, JobAction::Fail(Error::RemoteError));
    assert_eq!(job.state(), JobState::Failed);
    assert_eq!(job.failure(), Some(Error::RemoteError));
}

#[test]
fn job_reports_the_first_failure_seen() {
    let job = fetching(100, Some(40), 4);
    let (job, _) = job.step(JobEvent::SegmentFinished(Err(Error::IOError)));
    let (job, _) = job.step(JobEvent::SegmentFinished(Err(Error::RemoteError)));
    let (job, action) = job.step(JobEvent::SegmentFinished(Err(Error::ProtocolError)));
    assert_eq!(action, JobAction::Fail(Error::IOError));
    assert_eq!(job.failure(), Some(Error::IOError));

    let job = fetching(100, Some(40), 4);
    let (job, _) = job.step(JobEvent::SegmentFinished(Ok(())));
    let (job, _) = job.step(JobEvent::SegmentFinished(Ok(())));
    let (job, action) = job.step(JobEvent::SegmentFinished(Err(Error::ProtocolError)));
    assert_eq!(action, JobAction::Fail(Error::ProtocolError));
    assert_eq!(job.state(), JobState::Failed);
}

#[test]
fn job_waits_for_every_segment() {
    let job = fetching(1000, Some(10), 4);
    assert_eq!(job.ranges().len(), 100);
    let mut job = job;
    for i in 0..99 {
        let outcome = if i == 3 { Err(Error::RemoteError) } else { Ok(()) };
        let (next, action) = job.step(JobEvent::SegmentFinished(outcome));
        assert_eq!(action, JobAction::Wait);
        assert_eq!(next.state(), JobState::FetchingSegments);
        job = next;
    }
    let (job, action) = job.step(JobEvent::SegmentFinished(Ok(())));
    assert_eq!(action, JobAction::Fail(Error::RemoteError));
    assert_eq!(job.state(), JobState::Failed);
    let (job, action) = job.step(JobEvent::SegmentFinished(Ok(())));
    assert_eq!(action, JobAction::Ignore);
    assert_eq!(job.state(), JobState::Failed);
}

#[test]
fn job_of_an_empty_resource_completes_without_segments() {
    let job = DownloadJob::new("http://host/empty", Some(1024), 4);
    let (job, _) = job.step(JobEvent::Start);
    let (job, action) = job.step(JobEvent::Probed(Ok(0)));
    assert_eq!(action, JobAction::Partition);
    let (job, action) = job.step(JobEvent::Partition);
    assert_eq!(action, JobAction::Complete);
    assert_eq!(job.state(), JobState::Completed);
    assert!(job.ranges().is_empty());
    assert_eq!(job.failure(), None);
}

#[test]
fn job_of_an_empty_resource_completes_with_no_size_asked_for() {
    for workers in [1usize, 4, 64] {
        let job = DownloadJob::new("http://host/empty", None, workers);
        let (job, action) = job.step(JobEvent::Start);
        assert_eq!(action, JobAction::Probe);
        let (job, action) = job.step(JobEvent::Probed(Ok(0)));
        assert_eq!(action, JobAction::Partition);
        let (job, action) = job.step(JobEvent::Partition);
        assert_eq!(action, JobAction::Complete);
        assert_eq!(job.state(), JobState::Completed);
        assert!(job.ranges().is_empty());
        assert_eq!(job.failure(), None);
        assert_eq!(job.total_size(), 0);
    }
}

#[test]
fn job_of_an_empty_resource_without_workers_fails() {
    for segment_size in [None, Some(40)] {
        let job = DownloadJob::new("http://host/empty", segment_size, 0);
        let (job, _) = job.step(JobEvent::Start);
        let (job, _) = job.step(JobEvent::Probed(Ok(0)));
        let (job, action) = job.step(JobEvent::Partition);
        assert_eq!(action, JobAction::Fail(Error::ConfigError));
        assert_eq!(job.state(), JobState::Failed);
    }
}

#[test]
fn job_reports_a_task_that_broke_off() {
    let job = fetching(100, Some(40), 4);
    let (job, _) = job.step(JobEvent::SegmentFinished(Ok(())));
    let (job, _) = job.step(JobEvent::SegmentFinished(Err(Error::TaskError)));
    let (job, action) = job.step(JobEvent::SegmentFinished(Err(Error::RemoteError)));
    assert_eq!(action, JobAction::Fail(Error::TaskError));
    assert_eq!(job.failure(), Some(Error::TaskError));
}

#[test]
fn job_with_a_segment_size_of_zero_fails() {
    let job = DownloadJob::new("http://host/file.bin", Some(0), 4);
    let (job, _) = job.step(JobEvent::Start);
    let (job, _) = job.step(JobEvent::Probed(Ok(100)));
    assert_eq!(job.state(), JobState::Partitioned);
    let (job, action) = job.step(JobEvent::Partition);
    assert_eq!(action, JobAction::Fail(Error::ConfigError));
    assert_eq!(job.state(), JobState::Failed);
    assert_eq!(job.failure(), Some(Error::ConfigError));
    assert!(job.ranges().is_empty());
}

#[test]
fn job_without_workers_fails() {
    let job = DownloadJob::new("http://host/file.bin", None, 0);
    let (job, _) = job.step(JobEvent::Start);
    let (job, _) = job.step(JobEvent::Probed(Ok(100)));
    let (job, action) = job.step(JobEvent::Partition);
    assert_eq!(action, JobAction::Fail(Error::ConfigError));
    assert_eq!(job.state(), JobState::Failed);
}

#[test]
fn job_with_more_workers_than_bytes_fails() {
    let job = DownloadJob::new("http://host/file.bin", None, 8);
    let (job, _) = job.step(JobEvent::Start);
    let (job, _) = job.step(JobEvent::Probed(Ok(5)));
    let (job, action) = job.step(JobEvent::Partition);
    assert_eq!(action, JobAction::Fail(Error::ConfigError));
    assert_eq!(job.state(), JobState::Failed);
}

#[test]
fn job_derives_the_segment_size_from_the_workers() {
    let job = fetching(100, None, 4);
    assert_eq!(job.ranges(), &vec![(0, 24), (25, 49), (50, 74), (75, 99)]);
    let job = fetching(10, None, 3);
    assert_eq!(job.ranges(), &vec![(0, 2), (3, 5), (6, 8), (9, 9)]);
}

#[test]
fn job_ignores_what_does_not_belong_to_its_state() {
    let job = DownloadJob::new("http://host/file.bin", Some(40), 4);
    let (job, action) = job.step(JobEvent::Probed(Ok(100)));
    assert_eq!(action, JobAction::Ignore);
    let (job, action) = job.step(JobEvent::Partition);
    assert_eq!(action, JobAction::Ignore);
    let (job, action) = job.step(JobEvent::SegmentFinished(Ok(())));
    assert_eq!(action, JobAction::Ignore);
    assert_eq!(job.state(), JobState::Created);
    assert_eq!(job.total_size(), 0);

    let (job, _) = job.step(JobEvent::Start);
    let (job, action) = job.step(JobEvent::Start);
    assert_eq!(action, JobAction::Ignore);
    let (job, action) = job.step(JobEvent::Partition);
    assert_eq!(action, JobAction::Ignore);
    assert_eq!(job.state(), JobState::Probing);

    let (job, _) = job.step(JobEvent::Probed(Ok(100)));
    let (job, action) = job.step(JobEvent::Probed(Ok(7)));
    assert_eq!(action, JobAction::Ignore);
    assert_eq!(job.total_size(), 100);
    let (job, action) = job.step(JobEvent::SegmentFinished(Err(Error::IOError)));
    assert_eq!(action, JobAction::Ignore);
    assert_eq!(job.state(), JobState::Partitioned);

    let (job, _) = job.step(JobEvent::Partition);
    let (job, action) = job.step(JobEvent::Partition);
    assert_eq!(action, JobAction::Ignore);
    let (job, action) = job.step(JobEvent::Start);
    assert_eq!(action, JobAction::Ignore);
    assert_eq!(job.state(), JobState::FetchingSegments);
    assert_eq!(job.ranges().len(), 3);
}

#[test]
fn job_that_is_completed_stays_completed() {
    let job = fetching(10, Some(10), 1);
    let (job, action) = job.step(JobEvent::SegmentFinished(Ok(())));
    assert_eq!(action, JobAction::Complete);
    for event in [
        JobEvent::Start,
        JobEvent::Probed(Ok(5)),
        JobEvent::Probed(Err(Error::RemoteError)),
        JobEvent::Partition,
        JobEvent::SegmentFinished(Err(Error::IOError)),
    ] {
        let probe = DownloadJob::new(job.url(), Some(10), 1);
        let (probe, _) = probe.step(JobEvent::Start);
        let (probe, _) = probe.step(JobEvent::Probed(Ok(10)));
        let (probe, _) = probe.step(JobEvent::Partition);
        let (probe, _) = probe.step(JobEvent::SegmentFinished(Ok(())));
        let (probe, action) = probe.step(event);
        assert_eq!(action, JobAction::Ignore);
        assert_eq!(probe.state(), JobState::Completed);
        assert_eq!(probe.failure(), None);
        assert_eq!(probe.ranges(), &vec![(0, 9)]);
    }
    assert_eq!(job.state(), JobState::Completed);
}
