//! Planning and bookkeeping for a parallel segmented file download.
//!
//! A resource of known size is cut into contiguous byte ranges, each range is
//! fetched on its own and written at its own offset of one destination file.
//! This crate holds the decisions of such a download: how the ranges are cut,
//! where each received chunk is placed, how the size is read from a metadata
//! reply, and how the outcome of the whole job follows from the outcomes of
//! its parts.  Sending requests and writing the file are left to the caller.

pub mod decimal;
pub mod error;
pub mod header;
pub mod image;
pub mod job;
pub mod plan;
pub mod progress;
pub mod range;
pub mod segment;

pub use error::Error;
pub use header::{
    check_status, get_header_info, probe_result, range_header_value, request_headers,
    ResponseHeaderInfo, USER_AGENT_VALUE,
};
pub use job::{DownloadJob, JobAction, JobEvent, JobState};
pub use plan::{file_name, plan_segments, resolve_segment_size, segment_size_of, worker_count};
pub use progress::ProgressCounter;
pub use range::split_data;
pub use segment::SegmentCursor;
