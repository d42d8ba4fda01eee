use std::io;
use std::path::PathBuf;

use wildside::download::{
    DownloadAction, DownloadEvent, DownloadMachine, DownloadStage, DownloadStep, download_log_row,
    target_file_name,
};
use wildside::dump::{
    DownloadReport, DumpDescriptor, DumpFileName, DumpUrl, TransportError, WikidataDumpError,
};

fn descriptor(size: Option<u64>) -> DumpDescriptor {
    DumpDescriptor {
        file_name: DumpFileName::new("wikidata-2024-01-01-all.json.bz2".to_string()),
        url: DumpUrl::new("https://example.org/wikidata-2024-01-01-all.json.bz2".to_string()),
        size,
        sha1: None,
    }
}

fn output() -> PathBuf {
    PathBuf::from("/tmp/out/wikidata.json.bz2")
}

fn next(step: DownloadStep) -> (DownloadMachine, DownloadAction) {
    match step {
        DownloadStep::Next(m, a) => (m, a),
        other => panic!("expected another action, got {other:?}"),
    }
}

fn finished(step: DownloadStep) -> Result<DownloadReport, WikidataDumpError> {
    match step {
        DownloadStep::Finished(result) => result,
        other => panic!("expected the end of the download, got {other:?}"),
    }
}

/// Run a fresh download through a successful transfer of `bytes`, answering
/// the existence checks with `exists`; return the step after persisting.
fn run(size: Option<u64>, overwrite: bool, log: bool, exists: bool, bytes: u64) -> (Vec<String>, DownloadStep) {
    let (mut machine, mut action) = DownloadMachine::start(descriptor(size), output(), overwrite, log);
    let mut actions = Vec::new();
    loop {
        actions.push(format!("{action:?}"));
        let event = match action {
            DownloadAction::CreateParentDir => DownloadEvent::ParentDir(Ok(())),
            DownloadAction::CheckOutputExists => DownloadEvent::OutputExists(exists),
            DownloadAction::CreateTempFile => DownloadEvent::TempFile(Ok(())),
            DownloadAction::DownloadArchive(_) => DownloadEvent::Downloaded(Ok(bytes)),
            DownloadAction::FlushTempFile => DownloadEvent::Flushed(Ok(())),
            DownloadAction::RemoveExistingOutput => DownloadEvent::Removed(Ok(())),
            DownloadAction::PersistTempFile => DownloadEvent::Persisted(Ok(())),
        };
        match machine.step(event) {
            DownloadStep::Next(m, a) => {
                machine = m;
                action = a;
            }
            other => return (actions, other),
        }
    }
}

#[test]
fn a_fresh_download_runs_every_step_once() {
    let (actions, step) = run(Some(3), false, false, false, 3);
    assert_eq!(
        actions,
        vec![
            "CreateParentDir",
            "CheckOutputExists",
            "CreateTempFile",
            "DownloadArchive(DumpUrl(\"https://example.org/wikidata-2024-01-01-all.json.bz2\"))",
            "FlushTempFile",
            "PersistTempFile",
        ]
    );
    let report = finished(step).expect("download should succeed");
    assert_eq!(report.bytes_written, 3);
    assert_eq!(report.output_path, output());
    assert_eq!(report.descriptor, descriptor(Some(3)));
}

#[test]
fn an_existing_output_is_refused_without_overwrite() {
    let (actions, step) = run(None, false, false, true, 3);
    assert_eq!(actions, vec!["CreateParentDir", "CheckOutputExists"]);
    match step {
        DownloadStep::RefuseExisting(path) => assert_eq!(path, output()),
        other => panic!("expected a refusal, got {other:?}"),
    }
}

#[test]
fn overwriting_replaces_an_existing_output_after_the_transfer() {
    let (actions, step) = run(None, true, false, true, 8);
    assert_eq!(actions[0], "CreateParentDir");
    assert_eq!(actions[1], "CreateTempFile");
    assert_eq!(&actions[3..], &["FlushTempFile", "CheckOutputExists", "RemoveExistingOutput", "PersistTempFile"]);
    assert_eq!(finished(step).unwrap().bytes_written, 8);
}

#[test]
fn overwriting_without_an_existing_output_skips_removal() {
    let (actions, step) = run(None, true, false, false, 8);
    assert_eq!(&actions[3..], &["FlushTempFile", "CheckOutputExists", "PersistTempFile"]);
    assert!(finished(step).is_ok());
}

#[test]
fn a_size_mismatch_is_reported_after_persisting() {
    let (_, step) = run(Some(10), false, true, false, 3);
    assert!(matches!(
        finished(step),
        Err(WikidataDumpError::SizeMismatch { expected: 10, actual: 3 })
    ));
}

#[test]
fn logged_downloads_ask_for_a_record() {
    let (_, step) = run(Some(3), false, true, false, 3);
    match step {
        DownloadStep::Record(report) => {
            assert_eq!(report.bytes_written, 3);
            assert_eq!(report.output_path, output());
        }
        other => panic!("expected a record, got {other:?}"),
    }
}

#[test]
fn failures_end_the_download_with_their_errors() {
    let (m, _) = DownloadMachine::start(descriptor(None), output(), false, false);
    let parent = PathBuf::from("/tmp/out");
    let err = io::Error::new(io::ErrorKind::PermissionDenied, "denied");
    match finished(m.step(DownloadEvent::ParentDir(Err((err, parent.clone()))))) {
        Err(WikidataDumpError::CreateDir { source, path }) => {
            assert_eq!(path, parent);
            assert_eq!(source.kind(), io::ErrorKind::PermissionDenied);
        }
        other => panic!("unexpected {other:?}"),
    }

    let (m, _) = DownloadMachine::start(descriptor(None), output(), true, false);
    let (m, a) = next(m.step(DownloadEvent::ParentDir(Ok(()))));
    assert!(matches!(a, DownloadAction::CreateTempFile));
    match finished(m.step(DownloadEvent::TempFile(Err(io::Error::other("full"))))) {
        Err(WikidataDumpError::WriteDump { path, .. }) => assert_eq!(path, output()),
        other => panic!("unexpected {other:?}"),
    }

    let (m, _) = DownloadMachine::start(descriptor(None), output(), true, false);
    let (m, _) = next(m.step(DownloadEvent::ParentDir(Ok(()))));
    let (m, _) = next(m.step(DownloadEvent::TempFile(Ok(()))));
    assert_eq!(m.stage(), DownloadStage::Downloading);
    let transport = TransportError::Http { url: "u".to_string(), status: 503, message: "busy".to_string() };
    assert!(matches!(
        finished(m.step(DownloadEvent::Downloaded(Err(transport)))),
        Err(WikidataDumpError::Download { source: TransportError::Http { status: 503, .. } })
    ));

    let (m, _) = DownloadMachine::start(descriptor(None), output(), true, false);
    let (m, _) = next(m.step(DownloadEvent::ParentDir(Ok(()))));
    let (m, _) = next(m.step(DownloadEvent::TempFile(Ok(()))));
    let (m, _) = next(m.step(DownloadEvent::Downloaded(Ok(1))));
    assert_eq!(m.stage(), DownloadStage::Flushing(1));
    let (m, _) = next(m.step(DownloadEvent::Flushed(Ok(()))));
    let (m, _) = next(m.step(DownloadEvent::OutputExists(true)));
    assert!(matches!(
        finished(m.step(DownloadEvent::Removed(Err(io::Error::other("busy"))))),
        Err(WikidataDumpError::WriteDump { .. })
    ));
}

#[test]
fn an_unexpected_outcome_asks_again() {
    let (m, _) = DownloadMachine::start(descriptor(None), output(), false, false);
    let (m, a) = next(m.step(DownloadEvent::Flushed(Ok(()))));
    assert!(matches!(a, DownloadAction::CreateParentDir));
    assert_eq!(m.stage(), DownloadStage::CreatingParent);
    assert!(matches!(m.pending_action(), DownloadAction::CreateParentDir));
}

fn report(size: Option<u64>, bytes: u64) -> DownloadReport {
    DownloadReport {
        descriptor: DumpDescriptor { sha1: Some("abc".to_string()), ..descriptor(size) },
        bytes_written: bytes,
        output_path: output(),
    }
}

#[test]
fn log_rows_carry_the_report() {
    let row = download_log_row(&report(Some(128), 128), 1_700_000_000).unwrap();
    assert_eq!(row.file_name, "wikidata-2024-01-01-all.json.bz2");
    assert_eq!(row.url, "https://example.org/wikidata-2024-01-01-all.json.bz2");
    assert_eq!(row.sha1.as_deref(), Some("abc"));
    assert_eq!(row.size_bytes, Some(128));
    assert_eq!(row.bytes_written, 128);
    assert_eq!(row.downloaded_at, 1_700_000_000);
    let row = download_log_row(&report(None, 0), 0).unwrap();
    assert_eq!(row.size_bytes, None);
}

fn value_error(result: Result<wildside::download::DownloadLogRow, WikidataDumpError>) -> String {
    match result {
        Err(WikidataDumpError::RecordLogValue { what }) => what,
        other => panic!("expected a value error, got {other:?}"),
    }
}

#[test]
fn log_rows_refuse_values_beyond_sqlite_integers() {
    let big = i64::MAX as u64 + 1;
    assert_eq!(value_error(download_log_row(&report(Some(big), big), big)), "timestamp");
    assert_eq!(value_error(download_log_row(&report(Some(big), big), 5)), "declared size");
    assert_eq!(value_error(download_log_row(&report(Some(1), big), 5)), "bytes written");
    assert!(download_log_row(&report(Some(i64::MAX as u64), i64::MAX as u64), i64::MAX as u64).is_ok());
}

#[test]
fn the_target_file_defaults_to_the_dump_name() {
    assert_eq!(target_file_name(None, &descriptor(None)), "wikidata-2024-01-01-all.json.bz2");
    assert_eq!(target_file_name(Some("custom.bz2".to_string()), &descriptor(None)), "custom.bz2");
}
