//! The decisions of a dump download and of its audit record.
//!
//! A download creates the output's parent directory, refuses to clobber an
//! existing output unless overwriting is enabled, streams the archive into a
//! temporary file beside the output, flushes it, replaces any existing
//! output, moves the temporary file into place, checks the size the manifest
//! declared, and records the download when a log is kept. The caller
//! performs each file and network operation that [`DownloadMachine`] asks
//! for and reports its outcome back; the machine decides what comes next and
//! how the download ends.

use vstd::prelude::*;

use crate::dump::{
    DownloadReport, DumpDescriptor, DumpUrl, TransportError, WikidataDumpError, descriptor_model,
    opt_view,
};

verus! {

/// Statement creating the download log table.
pub const CREATE_DOWNLOADS_SQL: &'static str =
    "CREATE TABLE IF NOT EXISTS downloads (
                    id INTEGER PRIMARY KEY AUTOINCREMENT,
                    file_name TEXT NOT NULL,
                    url TEXT NOT NULL,
                    sha1 TEXT,
                    size_bytes INTEGER,
                    bytes_written INTEGER NOT NULL,
                    output_path TEXT NOT NULL,
                    downloaded_at INTEGER NOT NULL
                )";

/// Statement creating the uniqueness index of the download log.
pub const CREATE_DOWNLOADS_UNIQUE_INDEX_SQL: &'static str =
    "CREATE UNIQUE INDEX IF NOT EXISTS u_downloads_file_output ON downloads(file_name, output_path)";

/// Statement creating the timestamp index of the download log.
pub const CREATE_DOWNLOADS_TIME_INDEX_SQL: &'static str =
    "CREATE INDEX IF NOT EXISTS ix_downloads_downloaded_at ON downloads(downloaded_at)";

/// Statement inserting a download record (parameters: file name, URL,
/// checksum, declared size, bytes written, output path, timestamp).
pub const INSERT_DOWNLOAD_SQL: &'static str =
    "INSERT INTO downloads (
                    file_name,
                    url,
                    sha1,
                    size_bytes,
                    bytes_written,
                    output_path,
                    downloaded_at
                ) VALUES (?1, ?2, ?3, ?4, ?5, ?6, ?7)";

/// The largest value of an SQLite integer column.
pub open spec fn fits_i64(v: u64) -> bool {
    v <= i64::MAX
}

/// The values of a download record, as SQLite stores them (the output path
/// is added by the caller).
#[derive(Debug, Clone)]
pub struct DownloadLogRow {
    pub file_name: String,
    pub url: String,
    pub sha1: Option<String>,
    pub size_bytes: Option<i64>,
    pub bytes_written: i64,
    pub downloaded_at: i64,
}

/// Convert a `u64` to an SQLite integer, naming the value in the error.
fn to_sql_integer(value: u64, what: &str) -> (result: Result<i64, WikidataDumpError>)
    ensures
        match result {
            Ok(v) => fits_i64(value) && v as int == value as int,
            Err(e) => !fits_i64(value) && (e matches WikidataDumpError::RecordLogValue { what: w }
                && w@ == what@),
        },
{
    if value > 0x7fff_ffff_ffff_ffff {
        Err(WikidataDumpError::RecordLogValue { what: String::from_str(what) })
    } else {
        Ok(value as i64)
    }
}

/// The record of a finished download taken at `now_secs` seconds after the
/// Unix epoch. Each number must fit an SQLite integer; the first that does
/// not, in the order timestamp, declared size, bytes written, is named in
/// the error.
pub fn download_log_row(report: &DownloadReport, now_secs: u64) -> (result: Result<DownloadLogRow, WikidataDumpError>)
    ensures
        match result {
            Ok(row) => {
                &&& fits_i64(now_secs)
                &&& row.downloaded_at as int == now_secs as int
                &&& row.file_name@ == report.descriptor.file_name.0@
                &&& row.url@ == report.descriptor.url.0@
                &&& opt_view(row.sha1) == opt_view(report.descriptor.sha1)
                &&& match report.descriptor.size {
                    None => row.size_bytes is None,
                    Some(s) => fits_i64(s) && row.size_bytes == Some(s as i64),
                }
                &&& fits_i64(report.bytes_written)
                &&& row.bytes_written as int == report.bytes_written as int
            },
            Err(e) => e matches WikidataDumpError::RecordLogValue { what } && if !fits_i64(now_secs) {
                what@ == "timestamp"@
            } else if report.descriptor.size matches Some(s) && !fits_i64(s) {
                what@ == "declared size"@
            } else {
                !fits_i64(report.bytes_written) && what@ == "bytes written"@
            },
        },
{
    let timestamp = match to_sql_integer(now_secs, "timestamp") {
        Ok(v) => v,
        Err(e) => {
            return Err(e);
        },
    };
    let size = match report.descriptor.size {
        None => None,
        Some(s) => match to_sql_integer(s, "declared size") {
            Ok(v) => Some(v),
            Err(e) => {
                return Err(e);
            },
        },
    };
    let bytes = match to_sql_integer(report.bytes_written, "bytes written") {
        Ok(v) => v,
        Err(e) => {
            return Err(e);
        },
    };
    Ok(
        DownloadLogRow {
            file_name: report.descriptor.file_name.0.clone(),
            url: report.descriptor.url.0.clone(),
            sha1: report.descriptor.sha1.clone(),
            size_bytes: size,
            bytes_written: bytes,
            downloaded_at: timestamp,
        },
    )
}

/// The name of the downloaded file: the one asked for, else the dump's own.
pub fn target_file_name(requested: Option<String>, descriptor: &DumpDescriptor) -> (result: String)
    ensures
        result@ == match requested {
            Some(name) => name@,
            None => descriptor.file_name.0@,
        },
{
    match requested {
        Some(name) => name,
        None => descriptor.file_name.0.clone(),
    }
}

/// An operation that the download asks the caller to perform.
#[derive(Debug)]
pub enum DownloadAction {
    /// Create the output's parent directory, if it has one.
    CreateParentDir,
    /// Tell whether the output file exists.
    CheckOutputExists,
    /// Create a temporary file beside the output.
    CreateTempFile,
    /// Stream the archive at this URL into the temporary file.
    DownloadArchive(DumpUrl),
    /// Flush the temporary file.
    FlushTempFile,
    /// Remove the existing output file.
    RemoveExistingOutput,
    /// Move the temporary file to the output path.
    PersistTempFile,
}

/// The outcome of the operation last asked for.
#[derive(Debug)]
pub enum DownloadEvent {
    /// The parent directory was created (or there is none), or creating
    /// the directory at the given path failed.
    ParentDir(Result<(), (std::io::Error, std::path::PathBuf)>),
    /// Whether the output file exists.
    OutputExists(bool),
    /// The temporary file was created, or creating it failed.
    TempFile(Result<(), std::io::Error>),
    /// The archive was streamed (the number of bytes written), or the
    /// transfer failed.
    Downloaded(Result<u64, TransportError>),
    /// The temporary file was flushed, or flushing failed.
    Flushed(Result<(), std::io::Error>),
    /// The existing output was removed, or removing it failed.
    Removed(Result<(), std::io::Error>),
    /// The temporary file was moved to the output path, or moving failed.
    Persisted(Result<(), std::io::Error>),
}

/// Where a download stands: which outcome it waits for, and the number of
/// bytes written once the archive has been streamed.
#[derive(Debug, Clone, Copy, PartialEq, Eq, Structural)]
pub enum DownloadStage {
    CreatingParent,
    CheckingBeforeDownload,
    CreatingTemp,
    Downloading,
    Flushing(u64),
    CheckingBeforeReplace(u64),
    Removing(u64),
    Persisting(u64),
}

/// A download in progress.
#[derive(Debug)]
pub struct DownloadMachine {
    descriptor: DumpDescriptor,
    output_path: std::path::PathBuf,
    overwrite: bool,
    log: bool,
    stage: DownloadStage,
}

/// What the caller does after reporting an outcome.
#[derive(Debug)]
pub enum DownloadStep {
    /// Perform the action and report its outcome to the machine.
    Next(DownloadMachine, DownloadAction),
    /// The output exists and overwriting is disabled: the download fails
    /// with [`WikidataDumpError::WriteDump`] at this path, the I/O error
    /// being of kind `AlreadyExists`.
    RefuseExisting(std::path::PathBuf),
    /// Record the report in the download log; the download's result is the
    /// report when the record succeeds, and the log's error otherwise.
    Record(DownloadReport),
    /// The download is over.
    Finished(Result<DownloadReport, WikidataDumpError>),
}

/// The action that a stage waits on.
pub open spec fn stage_action_matches(stage: DownloadStage, url: Seq<char>, action: DownloadAction) -> bool {
    match stage {
        DownloadStage::CreatingParent => action is CreateParentDir,
        DownloadStage::CheckingBeforeDownload => action is CheckOutputExists,
        DownloadStage::CreatingTemp => action is CreateTempFile,
        DownloadStage::Downloading => action matches DownloadAction::DownloadArchive(u) && u.0@ == url,
        DownloadStage::Flushing(_) => action is FlushTempFile,
        DownloadStage::CheckingBeforeReplace(_) => action is CheckOutputExists,
        DownloadStage::Removing(_) => action is RemoveExistingOutput,
        DownloadStage::Persisting(_) => action is PersistTempFile,
    }
}

/// The end of a download once the temporary file is in place, `bytes`
/// having been written: a size mismatch when the manifest declared another
/// size; otherwise the report, to be recorded first when a log is kept.
pub open spec fn finish_matches(
    descriptor: DumpDescriptor,
    output_path: std::path::PathBuf,
    log: bool,
    bytes: u64,
    step: DownloadStep,
) -> bool {
    match descriptor.size {
        Some(expected) if expected != bytes => step matches DownloadStep::Finished(Err(
            WikidataDumpError::SizeMismatch { expected: x, actual: a },
        )) && x == expected && a == bytes,
        _ => {
            let report_ok = |r: DownloadReport|
                descriptor_model(r.descriptor) == descriptor_model(descriptor) && r.bytes_written
                    == bytes && r.output_path == output_path;
            if log {
                step matches DownloadStep::Record(r) && report_ok(r)
            } else {
                step matches DownloadStep::Finished(Ok(r)) && report_ok(r)
            }
        },
    }
}

impl DownloadMachine {
    /// The descriptor being downloaded.
    pub closed spec fn spec_descriptor(&self) -> DumpDescriptor {
        self.descriptor
    }

    /// The output location.
    pub closed spec fn spec_output_path(&self) -> std::path::PathBuf {
        self.output_path
    }

    /// Whether an existing output is replaced.
    pub closed spec fn spec_overwrite(&self) -> bool {
        self.overwrite
    }

    /// Whether the download is recorded in a log.
    pub closed spec fn spec_log(&self) -> bool {
        self.log
    }

    /// The outcome the download waits for.
    pub closed spec fn spec_stage(&self) -> DownloadStage {
        self.stage
    }

    /// Start a download of `descriptor` to `output_path`: the first action
    /// creates the output's parent directory.
    pub fn start(descriptor: DumpDescriptor, output_path: std::path::PathBuf, overwrite: bool, log: bool) -> (result: (
        DownloadMachine,
        DownloadAction,
    ))
        ensures
            result.0.spec_descriptor() == descriptor,
            result.0.spec_output_path() == output_path,
            result.0.spec_overwrite() == overwrite,
            result.0.spec_log() == log,
            result.0.spec_stage() == DownloadStage::CreatingParent,
            result.1 is CreateParentDir,
    {
        (
            DownloadMachine {
                descriptor,
                output_path,
                overwrite,
                log,
                stage: DownloadStage::CreatingParent,
            },
            DownloadAction::CreateParentDir,
        )
    }

    /// The stage the download is in.
    pub fn stage(&self) -> (result: DownloadStage)
        ensures
            result == self.spec_stage(),
    {
        self.stage
    }

    /// The action the current stage waits on.
    pub fn pending_action(&self) -> (result: DownloadAction)
        ensures
            stage_action_matches(self.spec_stage(), self.spec_descriptor().url.0@, result),
    {
        match self.stage {
            DownloadStage::CreatingParent => DownloadAction::CreateParentDir,
            DownloadStage::CheckingBeforeDownload => DownloadAction::CheckOutputExists,
            DownloadStage::CreatingTemp => DownloadAction::CreateTempFile,
            DownloadStage::Downloading => DownloadAction::DownloadArchive(
                DumpUrl::new(self.descriptor.url.0.clone()),
            ),
            DownloadStage::Flushing(_) => DownloadAction::FlushTempFile,
            DownloadStage::CheckingBeforeReplace(_) => DownloadAction::CheckOutputExists,
            DownloadStage::Removing(_) => DownloadAction::RemoveExistingOutput,
            DownloadStage::Persisting(_) => DownloadAction::PersistTempFile,
        }
    }

    /// Move to `stage` and ask for its action.
    fn advance(self, stage: DownloadStage) -> (result: DownloadStep)
        ensures
            result matches DownloadStep::Next(m, a) && m.spec_stage() == stage
                && m.spec_descriptor() == self.spec_descriptor() && m.spec_output_path()
                == self.spec_output_path() && m.spec_overwrite() == self.spec_overwrite()
                && m.spec_log() == self.spec_log() && stage_action_matches(
                stage,
                self.spec_descriptor().url.0@,
                a,
            ),
    {
        let next = DownloadMachine { stage, ..self };
        let action = next.pending_action();
        DownloadStep::Next(next, action)
    }

    /// The end of the download once the temporary file is in place (see
    /// [`finish_matches`]).
    fn finish(self, bytes: u64) -> (result: DownloadStep)
        ensures
            finish_matches(self.spec_descriptor(), self.spec_output_path(), self.spec_log(), bytes, result),
    {
        if let Some(expected) = self.descriptor.size {
            if expected != bytes {
                return DownloadStep::Finished(
                    Err(WikidataDumpError::SizeMismatch { expected, actual: bytes }),
                );
            }
        }
        let report = DownloadReport {
            descriptor: self.descriptor,
            bytes_written: bytes,
            output_path: self.output_path,
        };
        if self.log {
            DownloadStep::Record(report)
        } else {
            DownloadStep::Finished(Ok(report))
        }
    }

    /// Take the outcome of the pending action and decide what comes next.
    /// An outcome of another action than the pending one changes nothing:
    /// the pending action is asked for again.
    pub fn step(self, event: DownloadEvent) -> (result: DownloadStep)
        ensures
            ({
                let path = self.spec_output_path();
                let url = self.spec_descriptor().url.0@;
                let same = |m: DownloadMachine|
                    m.spec_descriptor() == self.spec_descriptor() && m.spec_output_path() == path
                        && m.spec_overwrite() == self.spec_overwrite() && m.spec_log()
                        == self.spec_log();
                let next = |stage: DownloadStage|
                    result matches DownloadStep::Next(m, a) && same(m) && m.spec_stage() == stage
                        && stage_action_matches(stage, url, a);
                let write_failed = |e: std::io::Error|
                    result matches DownloadStep::Finished(Err(WikidataDumpError::WriteDump { source, path: p }))
                        && source == e && p == path;
                match (self.spec_stage(), event) {
                    (DownloadStage::CreatingParent, DownloadEvent::ParentDir(Ok(()))) => if self.spec_overwrite() {
                        next(DownloadStage::CreatingTemp)
                    } else {
                        next(DownloadStage::CheckingBeforeDownload)
                    },
                    (DownloadStage::CreatingParent, DownloadEvent::ParentDir(Err((e, p)))) => result matches DownloadStep::Finished(Err(WikidataDumpError::CreateDir { source, path: q }))
                        && source == e && q == p,
                    (DownloadStage::CheckingBeforeDownload, DownloadEvent::OutputExists(exists)) => if exists {
                        result matches DownloadStep::RefuseExisting(p) && p == path
                    } else {
                        next(DownloadStage::CreatingTemp)
                    },
                    (DownloadStage::CreatingTemp, DownloadEvent::TempFile(Ok(()))) => next(DownloadStage::Downloading),
                    (DownloadStage::CreatingTemp, DownloadEvent::TempFile(Err(e))) => write_failed(e),
                    (DownloadStage::Downloading, DownloadEvent::Downloaded(Ok(n))) => next(DownloadStage::Flushing(n)),
                    (DownloadStage::Downloading, DownloadEvent::Downloaded(Err(t))) => result matches DownloadStep::Finished(Err(WikidataDumpError::Download { source }))
                        && source == t,
                    (DownloadStage::Flushing(n), DownloadEvent::Flushed(Ok(()))) => if self.spec_overwrite() {
                        next(DownloadStage::CheckingBeforeReplace(n))
                    } else {
                        next(DownloadStage::Persisting(n))
                    },
                    (DownloadStage::Flushing(_), DownloadEvent::Flushed(Err(e))) => write_failed(e),
                    (DownloadStage::CheckingBeforeReplace(n), DownloadEvent::OutputExists(exists)) => if exists {
                        next(DownloadStage::Removing(n))
                    } else {
                        next(DownloadStage::Persisting(n))
                    },
                    (DownloadStage::Removing(n), DownloadEvent::Removed(Ok(()))) => next(DownloadStage::Persisting(n)),
                    (DownloadStage::Removing(_), DownloadEvent::Removed(Err(e))) => write_failed(e),
                    (DownloadStage::Persisting(n), DownloadEvent::Persisted(Ok(()))) => finish_matches(
                        self.spec_descriptor(),
                        path,
                        self.spec_log(),
                        n,
                        result,
                    ),
                    (DownloadStage::Persisting(_), DownloadEvent::Persisted(Err(e))) => write_failed(e),
                    (stage, _) => next(stage),
                }
            }),
    {
        match (self.stage, event) {
            (DownloadStage::CreatingParent, DownloadEvent::ParentDir(Ok(()))) => {
                if self.overwrite {
                    self.advance(DownloadStage::CreatingTemp)
                } else {
                    self.advance(DownloadStage::CheckingBeforeDownload)
                }
            },
            (DownloadStage::CreatingParent, DownloadEvent::ParentDir(Err((source, path)))) => {
                DownloadStep::Finished(Err(WikidataDumpError::CreateDir { source, path }))
            },
            (DownloadStage::CheckingBeforeDownload, DownloadEvent::OutputExists(exists)) => {
                if exists {
                    DownloadStep::RefuseExisting(self.output_path)
                } else {
                    self.advance(DownloadStage::CreatingTemp)
                }
            },
            (DownloadStage::CreatingTemp, DownloadEvent::TempFile(Ok(()))) => {
                self.advance(DownloadStage::Downloading)
            },
            (DownloadStage::CreatingTemp, DownloadEvent::TempFile(Err(source))) => {
                DownloadStep::Finished(Err(WikidataDumpError::WriteDump { source, path: self.output_path }))
            },
            (DownloadStage::Downloading, DownloadEvent::Downloaded(Ok(n))) => {
                self.advance(DownloadStage::Flushing(n))
            },
            (DownloadStage::Downloading, DownloadEvent::Downloaded(Err(source))) => {
                DownloadStep::Finished(Err(WikidataDumpError::Download { source }))
            },
            (DownloadStage::Flushing(n), DownloadEvent::Flushed(Ok(()))) => {
                if self.overwrite {
                    self.advance(DownloadStage::CheckingBeforeReplace(n))
                } else {
                    self.advance(DownloadStage::Persisting(n))
                }
            },
            (DownloadStage::Flushing(_), DownloadEvent::Flushed(Err(source))) => {
                DownloadStep::Finished(Err(WikidataDumpError::WriteDump { source, path: self.output_path }))
            },
            (DownloadStage::CheckingBeforeReplace(n), DownloadEvent::OutputExists(exists)) => {
                if exists {
                    self.advance(DownloadStage::Removing(n))
                } else {
                    self.advance(DownloadStage::Persisting(n))
                }
            },
            (DownloadStage::Removing(n), DownloadEvent::Removed(Ok(()))) => {
                self.advance(DownloadStage::Persisting(n))
            },
            (DownloadStage::Removing(_), DownloadEvent::Removed(Err(source))) => {
                DownloadStep::Finished(Err(WikidataDumpError::WriteDump { source, path: self.output_path }))
            },
            (DownloadStage::Persisting(n), DownloadEvent::Persisted(Ok(()))) => self.finish(n),
            (DownloadStage::Persisting(_), DownloadEvent::Persisted(Err(source))) => {
                DownloadStep::Finished(Err(WikidataDumpError::WriteDump { source, path: self.output_path }))
            },
            (stage, _) => self.advance(stage),
        }
    }
}

} // verus!
