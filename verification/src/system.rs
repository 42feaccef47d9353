//! What the job system says of a job.

use vstd::prelude::*;
use crate::table::same_text;
use crate::value::{Json, JsonValue};

verus! {

/// The state of a job.
#[derive(Debug, Clone, Copy, PartialEq, Eq)]
pub enum JobStatus {
    NeverSeen,
    Queued,
    Running,
    Completed,
    Other,
}

/// The kind of a job.
#[derive(Debug, Clone, Copy, PartialEq, Eq)]
pub enum JobType {
    Compile,
    Output,
    FixCode,
}

/// The state that a code of the job system stands for: none for -1.
pub open spec fn status_of(code: int) -> Option<JobStatus> {
    if code == -1 {
        None
    } else if code == 0 {
        Some(JobStatus::NeverSeen)
    } else if code == 1 {
        Some(JobStatus::Queued)
    } else if code == 2 {
        Some(JobStatus::Running)
    } else if code == 3 {
        Some(JobStatus::Completed)
    } else {
        Some(JobStatus::Other)
    }
}

/// The state that a code of the job system stands for.
pub fn get_job_status(code: i32) -> (r: Option<JobStatus>)
    ensures
        r == status_of(code as int),
{
    if code == -1 {
        return None;
    }
    let status = match code {
        0 => JobStatus::NeverSeen,
        1 => JobStatus::Queued,
        2 => JobStatus::Running,
        3 => JobStatus::Completed,
        _ => JobStatus::Other,
    };
    Some(status)
}

/// The kind of job that a task's command names in a graph.
pub fn job_type_of(command: &str) -> (r: Option<JobType>)
    ensures
        r == if command@ == "Compile"@ {
            Some(JobType::Compile)
        } else if command@ == "Output"@ {
            Some(JobType::Output)
        } else if command@ == "FixCode"@ {
            Some(JobType::FixCode)
        } else {
            None
        },
{
    if same_text(command, "Compile") {
        Some(JobType::Compile)
    } else if same_text(command, "Output") {
        Some(JobType::Output)
    } else if same_text(command, "FixCode") {
        Some(JobType::FixCode)
    } else {
        None
    }
}

/// What a job hands back: its value, and null where it failed.
pub fn run_job(outcome: Result<JsonValue, String>) -> (r: JsonValue)
    ensures
        r@ == match outcome {
            Ok(value) => value@,
            Err(_) => Json::Null,
        },
{
    match outcome {
        Ok(response) => response,
        Err(_) => JsonValue::Null,
    }
}

} // verus!
