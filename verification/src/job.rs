//! The course of one download, from its start to its verdict.
//!
//! A download is carried out by a driver that sends the requests, writes the
//! file and runs the segment tasks.  What the driver does next is decided
//! here: it reports each thing that happened as a `JobEvent`, and `step`
//! answers with the new state of the job and the `JobAction` to take.
//!
//! ```text
//! Created --Start--> Probing --Probed(Ok)--> Partitioned --Partition--> FetchingSegments
//!                       |                        |    |                    |         |
//!                  Probed(Err)               no plan  |           all finished,   all finished,
//!                       |                        |  no ranges      one failed      none failed
//!                       v                        v    v                    v         v
//!                     Failed                  Failed  Completed          Failed   Completed
//! ```
//!
//! There is no plan for a download without workers or with segments of no
//! bytes.  There are no ranges where the resource is empty: the file that
//! was created for it is all there is to do.

use crate::error::Error;
use crate::plan::{
    effective_segment_size, file_name, file_name_of, lemma_effective_size, plan_segments,
    planned_ranges,
};
use crate::range::{lemma_partition_tiles, tiles};
use vstd::prelude::*;

verus! {

/// Where a download stands.
#[derive(Clone, Copy, Debug, PartialEq, Eq, Structural)]
pub enum JobState {
    /// Nothing has been done yet.
    Created,
    /// The size of the resource is being asked for.
    Probing,
    /// The size is known; the ranges are about to be cut.
    Partitioned,
    /// The segment tasks are running.
    FetchingSegments,
    /// Every segment task has finished, and none of them failed.
    Completed,
    /// The download has failed.
    Failed,
}

/// What the driver reports to the job.
#[derive(Clone, Copy, Debug)]
pub enum JobEvent {
    /// The download is to begin.
    Start,
    /// The destination file was created and the size asked for: the size of
    /// the resource, or what went wrong.
    Probed(Result<u64, Error>),
    /// The ranges are to be cut.
    Partition,
    /// One segment task has come to its end, well or not.
    SegmentFinished(Result<(), Error>),
}

/// What the job asks of the driver.
#[derive(Clone, Copy, Debug, PartialEq, Eq, Structural)]
pub enum JobAction {
    /// Create the destination file, empty, and ask for the size of the
    /// resource; report `Probed`.
    Probe,
    /// Report `Partition`.
    Partition,
    /// Start one task for each range of the job, all at once; report
    /// `SegmentFinished` for each as it ends.
    Spawn,
    /// Go on waiting for the tasks that still run.
    Wait,
    /// Every segment task has ended, none of them in failure: the download
    /// is done.
    Complete,
    /// The download has failed, for the reason given.
    Fail(Error),
    /// The event does not belong to the state the job is in; nothing changed.
    Ignore,
}

/// The first failure in a run of outcomes, where there is one.
pub open spec fn first_failure(outcomes: Seq<Result<(), Error>>) -> Option<Error>
    decreases outcomes.len(),
{
    if outcomes.len() == 0 {
        None
    } else {
        match first_failure(outcomes.drop_last()) {
            Some(e) => Some(e),
            None => match outcomes.last() {
                Ok(_) => None,
                Err(e) => Some(e),
            },
        }
    }
}

/// `first_failure` is `None` exactly when every outcome is a success, and
/// otherwise the error of the earliest outcome that is none.
pub proof fn lemma_first_failure(outcomes: Seq<Result<(), Error>>)
    ensures
        match first_failure(outcomes) {
            None => forall|i: int| 0 <= i < outcomes.len() ==> (#[trigger] outcomes[i]).is_ok(),
            Some(e) => exists|i: int|
                {
                    &&& 0 <= i < outcomes.len()
                    &&& #[trigger] outcomes[i] == Err::<(), Error>(e)
                    &&& forall|j: int| 0 <= j < i ==> (#[trigger] outcomes[j]).is_ok()
                },
        },
    decreases outcomes.len(),
{
    if outcomes.len() > 0 {
        let front = outcomes.drop_last();
        lemma_first_failure(front);
        match first_failure(front) {
            Some(e) => {
                let i = choose|i: int|
                    {
                        &&& 0 <= i < front.len()
                        &&& #[trigger] front[i] == Err::<(), Error>(e)
                        &&& forall|j: int| 0 <= j < i ==> (#[trigger] front[j]).is_ok()
                    };
                assert(outcomes[i] == front[i]);
                assert forall|j: int| 0 <= j < i implies (#[trigger] outcomes[j]).is_ok() by {
                    assert(outcomes[j] == front[j]);
                }
            },
            None => {
                assert forall|j: int| 0 <= j < outcomes.len() - 1 implies (
                #[trigger] outcomes[j]).is_ok() by {
                    assert(outcomes[j] == front[j]);
                }
                match outcomes.last() {
                    Ok(_) => {},
                    Err(e) => {
                        assert(outcomes[outcomes.len() - 1] == Err::<(), Error>(e));
                    },
                }
            },
        }
    }
}

/// What a job stands for.
pub struct JobView {
    /// Where the download stands.
    pub state: JobState,
    /// The address of the resource.
    pub url: Seq<char>,
    /// The segment size asked for, if one was.
    pub segment_size: Option<u64>,
    /// The number of workers.
    pub num_threads: usize,
    /// The size of the resource, once known.
    pub total_size: u64,
    /// The ranges to fetch, once cut.
    pub ranges: Seq<(u64, u64)>,
    /// How the segment tasks ended, in the order in which they were seen to
    /// end.
    pub outcomes: Seq<Result<(), Error>>,
    /// The reason for which the download has failed or is going to fail.
    pub failure: Option<Error>,
}

impl JobView {
    /// The job as it is before its start.
    pub open spec fn created(url: Seq<char>, segment_size: Option<u64>, num_threads: usize)
        -> JobView {
        JobView {
            state: JobState::Created,
            url,
            segment_size,
            num_threads,
            total_size: 0,
            ranges: Seq::empty(),
            outcomes: Seq::empty(),
            failure: None,
        }
    }

    /// What every job holds to, whichever events it was given.
    pub open spec fn wf(self) -> bool {
        match self.state {
            JobState::Created | JobState::Probing | JobState::Partitioned => {
                &&& self.ranges.len() == 0
                &&& self.outcomes.len() == 0
                &&& self.failure.is_none()
            },
            JobState::FetchingSegments => {
                &&& self.is_planned()
                &&& self.outcomes.len() < self.ranges.len()
                &&& self.failure == first_failure(self.outcomes)
            },
            JobState::Completed => {
                &&& self.is_planned()
                &&& self.outcomes.len() == self.ranges.len()
                &&& first_failure(self.outcomes).is_none()
                &&& self.failure.is_none()
            },
            JobState::Failed => {
                &&& self.failure.is_some()
                &&& self.ranges.len() == 0 ==> self.outcomes.len() == 0
                &&& self.ranges.len() > 0 ==> {
                    &&& self.is_planned()
                    &&& self.outcomes.len() == self.ranges.len()
                    &&& self.failure == first_failure(self.outcomes)
                }
            },
        }
    }

    /// The ranges are those that the plan of this download gives.
    pub open spec fn is_planned(self) -> bool {
        planned_ranges(self.total_size, self.segment_size, self.num_threads) == Ok::<
            Seq<(u64, u64)>,
            Error,
        >(self.ranges)
    }

    /// The job has come to its end.
    pub open spec fn is_over(self) -> bool {
        self.state == JobState::Completed || self.state == JobState::Failed
    }

    /// The job with its state replaced.
    pub open spec fn at(self, state: JobState) -> JobView {
        JobView { state, ..self }
    }

    /// The job after it has failed for the reason `e`.
    pub open spec fn failed(self, e: Error) -> JobView {
        JobView { state: JobState::Failed, failure: Some(e), ..self }
    }

    /// The job after the ranges were to be cut.
    pub open spec fn partitioned(self) -> (JobView, JobAction) {
        match planned_ranges(self.total_size, self.segment_size, self.num_threads) {
            Err(e) => (self.failed(e), JobAction::Fail(e)),
            Ok(ranges) => if ranges.len() == 0 {
                (JobView { state: JobState::Completed, ranges, ..self }, JobAction::Complete)
            } else {
                (JobView { state: JobState::FetchingSegments, ranges, ..self }, JobAction::Spawn)
            },
        }
    }

    /// The job after one more segment task has ended with `outcome`.  The
    /// first failure seen is the one that counts; the job is over only when
    /// as many tasks have ended as there are ranges.
    pub open spec fn segment_finished(self, outcome: Result<(), Error>) -> (JobView, JobAction) {
        let outcomes = self.outcomes.push(outcome);
        let failure = first_failure(outcomes);
        if outcomes.len() < self.ranges.len() {
            (JobView { outcomes, failure, ..self }, JobAction::Wait)
        } else {
            match failure {
                Some(e) => (
                    JobView { state: JobState::Failed, outcomes, failure, ..self },
                    JobAction::Fail(e),
                ),
                None => (
                    JobView { state: JobState::Completed, outcomes, failure, ..self },
                    JobAction::Complete,
                ),
            }
        }
    }

    /// The job after `event`, and what the driver is to do.
    pub open spec fn next(self, event: JobEvent) -> (JobView, JobAction) {
        match (self.state, event) {
            (JobState::Created, JobEvent::Start) => (self.at(JobState::Probing), JobAction::Probe),
            (JobState::Probing, JobEvent::Probed(Ok(total_size))) => (
                JobView { state: JobState::Partitioned, total_size, ..self },
                JobAction::Partition,
            ),
            (JobState::Probing, JobEvent::Probed(Err(e))) => (self.failed(e), JobAction::Fail(e)),
            (JobState::Partitioned, JobEvent::Partition) => self.partitioned(),
            (JobState::FetchingSegments, JobEvent::SegmentFinished(outcome)) => {
                self.segment_finished(outcome)
            },
            _ => (self, JobAction::Ignore),
        }
    }
}

/// A job holds to `wf` after every event if it did before.
pub proof fn lemma_next_wf(job: JobView, event: JobEvent)
    requires
        job.wf(),
    ensures
        job.next(event).0.wf(),
{
    match (job.state, event) {
        (JobState::FetchingSegments, JobEvent::SegmentFinished(outcome)) => {
            assert(job.outcomes.push(outcome).drop_last() =~= job.outcomes);
        },
        _ => {},
    }
}

/// The job after a run of events, taken one after the other.
pub open spec fn run(job: JobView, events: Seq<JobEvent>) -> JobView
    decreases events.len(),
{
    if events.len() == 0 {
        job
    } else {
        run(job, events.drop_last()).next(events.last()).0
    }
}

/// Whatever a driver reports, and in whatever order, a job that began as
/// created holds to `wf`.
pub proof fn lemma_run_wf(
    url: Seq<char>,
    segment_size: Option<u64>,
    num_threads: usize,
    events: Seq<JobEvent>,
)
    ensures
        run(JobView::created(url, segment_size, num_threads), events).wf(),
    decreases events.len(),
{
    if events.len() > 0 {
        lemma_run_wf(url, segment_size, num_threads, events.drop_last());
        lemma_next_wf(
            run(JobView::created(url, segment_size, num_threads), events.drop_last()),
            events.last(),
        );
    }
}

/// A job that is over stays as it is, whatever is reported to it.
pub proof fn lemma_over_is_final(job: JobView, event: JobEvent)
    requires
        job.is_over(),
    ensures
        job.next(event) == (job, JobAction::Ignore),
{
}

/// Nothing brings a job that is over back to life: it is the same after any
/// run of events.  So a job whose probe has failed never starts a task.
pub proof fn lemma_nothing_after_the_end(job: JobView, events: Seq<JobEvent>)
    requires
        job.is_over(),
    ensures
        run(job, events) == job,
    decreases events.len(),
{
    if events.len() > 0 {
        lemma_nothing_after_the_end(job, events.drop_last());
        lemma_over_is_final(job, events.last());
    }
}

/// Segment tasks are started at one point only: when the ranges of a job
/// whose size is known are cut, the plan succeeds and gives at least one
/// range.  The ranges are then those of the plan, and they tile the
/// resource.  A job whose probe failed never gets there.
pub proof fn lemma_spawn_follows_plan(job: JobView, event: JobEvent)
    requires
        job.wf(),
        job.next(event).1 == JobAction::Spawn,
    ensures
        job.state == JobState::Partitioned,
        event is Partition,
        job.next(event).0.state == JobState::FetchingSegments,
        job.next(event).0.is_planned(),
        job.next(event).0.ranges.len() > 0,
        tiles(job.next(event).0.ranges, job.total_size),
{
    match planned_ranges(job.total_size, job.segment_size, job.num_threads) {
        Ok(ranges) => {
            match effective_segment_size(job.segment_size, job.total_size, job.num_threads) {
                Ok(Some(size)) => {
                    lemma_effective_size(job.segment_size, job.total_size, job.num_threads);
                    lemma_partition_tiles(job.total_size, size);
                },
                _ => {},
            }
        },
        Err(_) => {},
    }
}

/// The verdict of the segment tasks.  While fewer tasks have ended than
/// there are ranges, the job waits.  When the last one ends, the job is
/// completed if every task succeeded, and has otherwise failed with the
/// error of the task that was the first to be seen failing, whatever the
/// tasks after it did.
pub proof fn lemma_verdict(job: JobView, outcome: Result<(), Error>)
    requires
        job.wf(),
        job.state == JobState::FetchingSegments,
    ensures
        ({
            let (next, action) = job.next(JobEvent::SegmentFinished(outcome));
            let seen = job.outcomes.push(outcome);
            &&& next.outcomes == seen
            &&& next.ranges == job.ranges
            &&& seen.len() < job.ranges.len() ==> action == JobAction::Wait && next.state
                == JobState::FetchingSegments
            &&& seen.len() == job.ranges.len() ==> match action {
                JobAction::Complete => {
                    &&& next.state == JobState::Completed
                    &&& forall|i: int| 0 <= i < seen.len() ==> (#[trigger] seen[i]).is_ok()
                },
                JobAction::Fail(e) => {
                    &&& next.state == JobState::Failed
                    &&& next.failure == Some(e)
                    &&& exists|i: int|
                        {
                            &&& 0 <= i < seen.len()
                            &&& #[trigger] seen[i] == Err::<(), Error>(e)
                            &&& forall|j: int| 0 <= j < i ==> (#[trigger] seen[j]).is_ok()
                        }
                },
                _ => false,
            }
        }),
{
    lemma_first_failure(job.outcomes.push(outcome));
}

/// One download of one resource into one file.
pub struct DownloadJob {
    state: JobState,
    url: String,
    segment_size: Option<u64>,
    num_threads: usize,
    total_size: u64,
    ranges: Vec<(u64, u64)>,
    finished: usize,
    failure: Option<Error>,
    outcomes: Ghost<Seq<Result<(), Error>>>,
}

impl View for DownloadJob {
    type V = JobView;

    closed spec fn view(&self) -> JobView {
        JobView {
            state: self.state,
            url: self.url@,
            segment_size: self.segment_size,
            num_threads: self.num_threads,
            total_size: self.total_size,
            ranges: self.ranges@,
            outcomes: self.outcomes@,
            failure: self.failure,
        }
    }
}

impl DownloadJob {
    #[verifier::type_invariant]
    spec fn inv(self) -> bool {
        self@.wf() && self.finished == self.outcomes@.len()
    }

    /// A download of the resource at `url`, not yet begun.  `segment_size`
    /// is the size of the segments where the caller asks for one;
    /// `num_threads` is the number of workers, by which the size of the
    /// resource is divided where the caller asks for none.
    pub fn new(url: &str, segment_size: Option<u64>, num_threads: usize) -> (job: DownloadJob)
        ensures
            job@ == JobView::created(url@, segment_size, num_threads),
            job@.wf(),
    {
        DownloadJob {
            state: JobState::Created,
            url: url.to_owned(),
            segment_size,
            num_threads,
            total_size: 0,
            ranges: Vec::new(),
            finished: 0,
            failure: None,
            outcomes: Ghost(Seq::empty()),
        }
    }

    /// Where the download stands.
    pub fn state(&self) -> (state: JobState)
        ensures
            state == self@.state,
            self@.wf(),
    {
        proof {
            use_type_invariant(self);
        }
        self.state
    }

    /// The address of the resource.
    pub fn url(&self) -> (url: &str)
        ensures
            url@ == self@.url,
    {
        self.url.as_str()
    }

    /// The name of the destination file: the last path component of the
    /// address.
    pub fn file_name(&self) -> (name: &str)
        ensures
            name@ == file_name_of(self@.url),
    {
        file_name(self.url.as_str())
    }

    /// The size of the resource.  It is known once the probe has succeeded,
    /// and zero before.
    pub fn total_size(&self) -> (total_size: u64)
        ensures
            total_size == self@.total_size,
    {
        self.total_size
    }

    /// The ranges to fetch, in ascending order.  There are none before the
    /// ranges are cut.
    pub fn ranges(&self) -> (ranges: &Vec<(u64, u64)>)
        ensures
            ranges@ == self@.ranges,
    {
        &self.ranges
    }

    /// The reason for which the download has failed, or is going to fail
    /// once the tasks that still run have ended.
    pub fn failure(&self) -> (failure: Option<Error>)
        ensures
            failure == self@.failure,
    {
        self.failure
    }

    /// Takes the job from one state to the next: `event` is what happened,
    /// the answer is the job as it now stands and what to do about it.  An
    /// event that does not belong to the state of the job changes nothing.
    pub fn step(self, event: JobEvent) -> (next: (DownloadJob, JobAction))
        ensures
            self@.wf(),
            next.0@.wf(),
            next.0@ == self@.next(event).0,
            next.1 == self@.next(event).1,
    {
        proof {
            use_type_invariant(&self);
        }
        match self.state {
            JobState::Created => match event {
                JobEvent::Start => (
                    DownloadJob { state: JobState::Probing, ..self },
                    JobAction::Probe,
                ),
                _ => (self, JobAction::Ignore),
            },
            JobState::Probing => match event {
                JobEvent::Probed(Ok(total_size)) => (
                    DownloadJob { state: JobState::Partitioned, total_size, ..self },
                    JobAction::Partition,
                ),
                JobEvent::Probed(Err(e)) => (
                    DownloadJob { state: JobState::Failed, failure: Some(e), ..self },
                    JobAction::Fail(e),
                ),
                _ => (self, JobAction::Ignore),
            },
            JobState::Partitioned => match event {
                JobEvent::Partition => {
                    match plan_segments(self.total_size, self.segment_size, self.num_threads) {
                        Err(e) => (
                            DownloadJob { state: JobState::Failed, failure: Some(e), ..self },
                            JobAction::Fail(e),
                        ),
                        Ok(ranges) => {
                            if ranges.len() == 0 {
                                (
                                    DownloadJob { state: JobState::Completed, ranges, ..self },
                                    JobAction::Complete,
                                )
                            } else {
                                (
                                    DownloadJob {
                                        state: JobState::FetchingSegments,
                                        ranges,
                                        ..self
                                    },
                                    JobAction::Spawn,
                                )
                            }
                        },
                    }
                },
                _ => (self, JobAction::Ignore),
            },
            JobState::FetchingSegments => match event {
                JobEvent::SegmentFinished(outcome) => {
                    let ghost outcomes = self.outcomes@.push(outcome);
                    proof {
                        assert(outcomes.drop_last() =~= self.outcomes@);
                    }
                    let tasks: usize = self.ranges.len();
                    let failure: Option<Error> = match self.failure {
                        Some(e) => Some(e),
                        None => match outcome {
                            Ok(_) => None,
                            Err(e) => Some(e),
                        },
                    };
                    let finished: usize = self.finished + 1;
                    let state: JobState = if finished < tasks {
                        JobState::FetchingSegments
                    } else if failure.is_some() {
                        JobState::Failed
                    } else {
                        JobState::Completed
                    };
                    let action: JobAction = if finished < tasks {
                        JobAction::Wait
                    } else {
                        match failure {
                            Some(e) => JobAction::Fail(e),
                            None => JobAction::Complete,
                        }
                    };
                    (
                        DownloadJob {
                            state,
                            finished,
                            failure,
                            outcomes: Ghost(outcomes),
                            ..self
                        },
                        action,
                    )
                },
                _ => (self, JobAction::Ignore),
            },
            JobState::Completed => (self, JobAction::Ignore),
            JobState::Failed => (self, JobAction::Ignore),
        }
    }
}

} // verus!
