//! What the server reports of itself, and how each report reads in the log.

use vstd::prelude::*;
use crate::text::{append_str, chars_of, string_of};

verus! {

/// How a refresh of the data files ended.
#[derive(Clone, Debug)]
pub enum DatafilesReport {
    /// The data files were read.
    Fine,
    /// The data files could not be read. Holds a short description.
    Failed(String),
}

/// How much a line of the log matters.
#[derive(Clone, Copy, Debug, PartialEq, Eq, Structural)]
pub enum LogLevel {
    Debug,
    Info,
    Warn,
    Error,
}

/// Something that the server reports.
#[derive(Clone, Debug)]
pub enum ReportingEvent {
    Start,
    Shutdown,
    UpdateDatafiles(DatafilesReport),
    StaleDatafiles(String),
}

impl ReportingEvent {
    /// The line that the event leaves in the log.
    pub open spec fn log_text(&self) -> Seq<char> {
        match self {
            ReportingEvent::Start => "Started server."@,
            ReportingEvent::Shutdown => "Shutting down..."@,
            ReportingEvent::UpdateDatafiles(DatafilesReport::Fine) => "Data refresh finished."@,
            ReportingEvent::UpdateDatafiles(DatafilesReport::Failed(short)) =>
                "Error updating the data files: "@ + short@,
            ReportingEvent::StaleDatafiles(commit) =>
                "Server running with stale datafiles from commit "@ + commit@ + "."@,
        }
    }

    /// How much the event matters.
    pub open spec fn log_level(&self) -> LogLevel {
        match self {
            ReportingEvent::Start => LogLevel::Info,
            ReportingEvent::Shutdown => LogLevel::Info,
            ReportingEvent::UpdateDatafiles(DatafilesReport::Fine) => LogLevel::Debug,
            ReportingEvent::UpdateDatafiles(DatafilesReport::Failed(_)) => LogLevel::Error,
            ReportingEvent::StaleDatafiles(_) => LogLevel::Warn,
        }
    }

    /// The line that the event leaves in the log, and its level.
    pub fn log(&self) -> (r: (LogLevel, String))
        ensures
            r.0 == self.log_level(),
            r.1@ == self.log_text(),
    {
        match self {
            ReportingEvent::Start => (LogLevel::Info, String::from_str("Started server.")),
            ReportingEvent::Shutdown => (LogLevel::Info, String::from_str("Shutting down...")),
            ReportingEvent::UpdateDatafiles(DatafilesReport::Fine) => (
                LogLevel::Debug,
                String::from_str("Data refresh finished."),
            ),
            ReportingEvent::UpdateDatafiles(DatafilesReport::Failed(short)) => {
                let mut out = chars_of("Error updating the data files: ");
                append_str(&mut out, short.as_str());
                (LogLevel::Error, string_of(&out))
            },
            ReportingEvent::StaleDatafiles(commit) => {
                let mut out = chars_of("Server running with stale datafiles from commit ");
                append_str(&mut out, commit.as_str());
                append_str(&mut out, ".");
                (LogLevel::Warn, string_of(&out))
            },
        }
    }
}

} // verus!
