use wildside::dump::{
    BaseUrl, DumpDescriptor, DumpFile, DumpFileName, DumpJob, DumpStatus, DumpUrl, WikidataDumpError,
    normalise_url, sanitise_base_url, select_dump, status_url, str_eq_ignore_ascii_case,
};
use wildside::source::{DumpSource, StubSource};

fn base_url() -> BaseUrl {
    BaseUrl::new("https://example.org".to_string())
}

fn file(url: Option<&str>, size: Option<u64>, sha1: Option<&str>) -> DumpFile {
    DumpFile { url: url.map(str::to_string), size, sha1: sha1.map(str::to_string) }
}

fn job(status: Option<&str>, files: Vec<(&str, DumpFile)>) -> DumpJob {
    DumpJob {
        status: status.map(str::to_string),
        files: files.into_iter().map(|(n, f)| (n.to_string(), f)).collect(),
    }
}

fn manifest() -> DumpStatus {
    DumpStatus {
        jobs: vec![(
            "json".to_string(),
            job(
                Some("done"),
                vec![(
                    "wikidatawiki-20240909-all.json.bz2",
                    file(
                        Some("/wikidatawiki/entities/20240909/wikidatawiki-20240909-all.json.bz2"),
                        Some(5),
                        Some("abc123"),
                    ),
                )],
            ),
        )],
    }
}

#[test]
fn parses_manifest() {
    let descriptor = select_dump(&manifest(), &base_url()).expect("manifest should select a dump");
    assert_eq!(descriptor.file_name.as_str(), "wikidatawiki-20240909-all.json.bz2");
    assert_eq!(descriptor.size, Some(5));
    assert_eq!(
        descriptor.url.as_str(),
        "https://example.org/wikidatawiki/entities/20240909/wikidatawiki-20240909-all.json.bz2"
    );
    assert_eq!(descriptor.sha1.as_deref(), Some("abc123"));
}

#[test]
fn errors_when_manifest_missing_dump() {
    let status = DumpStatus { jobs: vec![("json".to_string(), job(Some("failed"), Vec::new()))] };
    assert!(matches!(select_dump(&status, &base_url()), Err(WikidataDumpError::MissingDump)));
    let empty = DumpStatus { jobs: Vec::new() };
    assert!(matches!(select_dump(&empty, &base_url()), Err(WikidataDumpError::MissingDump)));
}

#[test]
fn selects_the_greatest_file_name_among_completed_json_dumps() {
    let status = DumpStatus {
        jobs: vec![
            (
                "json".to_string(),
                job(
                    Some("DONE"),
                    vec![
                        ("wikidata-20240101-all.json.bz2", file(Some("a/1"), None, None)),
                        ("wikidata-20240301-all.json.bz2", file(Some("a/3"), None, None)),
                        ("wikidata-20240401-all.json.gz", file(Some("a/4"), None, None)),
                        ("wikidata-20240501-all.json.bz2", file(None, None, None)),
                    ],
                ),
            ),
            (
                "other".to_string(),
                job(Some("in-progress"), vec![("wikidata-20240601-all.json.bz2", file(Some("a/6"), None, None))]),
            ),
            ("nostatus".to_string(), job(None, vec![("wikidata-20240701-all.json.bz2", file(Some("a/7"), None, None))])),
        ],
    };
    let descriptor = select_dump(&status, &base_url()).unwrap();
    assert_eq!(descriptor.file_name.as_str(), "wikidata-20240301-all.json.bz2");
    assert_eq!(descriptor.url.as_str(), "https://example.org/a/3");
}

#[test]
fn later_entries_win_ties_on_file_name() {
    let status = DumpStatus {
        jobs: vec![(
            "json".to_string(),
            job(
                Some("done"),
                vec![
                    ("x-all.json.bz2", file(Some("https://one.example/x"), Some(1), None)),
                    ("x-all.json.bz2", file(Some("https://two.example/x"), Some(2), None)),
                ],
            ),
        )],
    };
    let descriptor = select_dump(&status, &base_url()).unwrap();
    assert_eq!(descriptor.size, Some(2));
    assert_eq!(descriptor.url.as_str(), "https://two.example/x");
}

#[test]
fn sanitises_base_urls() {
    for input in ["https://example.org/", "https://example.org", "https://example.org///"] {
        assert_eq!(sanitise_base_url(input), BaseUrl::new("https://example.org".to_string()));
    }
}

#[test]
fn defaults_empty_base_url() {
    assert_eq!(sanitise_base_url(""), BaseUrl::new("https://dumps.wikimedia.org".to_string()));
    assert_eq!(sanitise_base_url("///"), BaseUrl::new("https://dumps.wikimedia.org".to_string()));
}

#[test]
fn sanitising_twice_is_sanitising_once() {
    for input in ["https://example.org//", "", "a/b/"] {
        let once = sanitise_base_url(input);
        assert_eq!(sanitise_base_url(once.as_str()), once);
    }
}

#[test]
fn normalises_relative_urls() {
    let relative = "entities/20240909/file.json";
    let absolute = normalise_url(&base_url(), relative).expect("URL should normalise");
    assert_eq!(absolute, DumpUrl::new("https://example.org/entities/20240909/file.json".to_string()));
}

#[test]
fn normalises_absolute_urls_on_their_own() {
    let absolute = normalise_url(&base_url(), "https://mirror.example/dump.bz2").unwrap();
    assert_eq!(absolute.as_str(), "https://mirror.example/dump.bz2");
    let canonical = normalise_url(&base_url(), "https://Mirror.Example/a/../b").unwrap();
    assert_eq!(canonical.as_str(), "https://mirror.example/b");
    let plain = normalise_url(&base_url(), "HTTPS://mirror.example/x").unwrap();
    assert_eq!(plain.as_str(), "https://mirror.example/x");
}

#[test]
fn reports_unparsable_urls() {
    assert!(normalise_url(&BaseUrl::new("not a url".to_string()), "x").is_err());
    assert!(normalise_url(&base_url(), "http://[bad").is_err());
}

#[test]
fn manifest_entries_without_url_give_no_descriptor() {
    let entry = file(None, Some(1), None);
    assert_eq!(DumpDescriptor::from_manifest_entry("x-all.json.bz2", &entry, &base_url()), None);
    let entry = file(Some("/y"), Some(1), Some("ff"));
    let descriptor = DumpDescriptor::from_manifest_entry("y-all.json.bz2", &entry, &base_url()).unwrap();
    assert_eq!(descriptor.file_name, DumpFileName::new("y-all.json.bz2".to_string()));
    assert_eq!(descriptor.url.into_inner(), "https://example.org/y");
}

#[test]
fn jobs_are_done_ignoring_ascii_case() {
    assert!(job(Some("Done"), Vec::new()).is_done());
    assert!(job(Some("done"), Vec::new()).is_done());
    assert!(!job(Some("done "), Vec::new()).is_done());
    assert!(!job(None, Vec::new()).is_done());
    assert!(str_eq_ignore_ascii_case("AbC", "aBc"));
    assert!(!str_eq_ignore_ascii_case("abc", "abd"));
}

#[test]
fn status_url_appends_the_manifest_path() {
    assert_eq!(status_url(&base_url()).as_str(), "https://example.org/wikidatawiki/entities/dumpstatus.json");
}

#[test]
fn wrappers_convert_from_and_to_string_slices() {
    let base = BaseUrl::from("https://dumps.wikimedia.org");
    assert_eq!(base.as_ref(), "https://dumps.wikimedia.org");
    assert_eq!(&*base, "https://dumps.wikimedia.org");
    assert!(base.starts_with("https://"));
    assert_eq!(base.into_inner(), "https://dumps.wikimedia.org");
    let file = DumpFileName::from("wikidata-2024-01-01-all.json.bz2");
    assert!(file.as_ref().ends_with(".bz2"));
    assert_eq!(file.as_str(), &*file);
    let url = DumpUrl::from("https://example.test/wikidata.json.bz2");
    assert!(url.as_ref().starts_with("https://"));
    assert_eq!(url, DumpUrl::new("https://example.test/wikidata.json.bz2".to_string()));
}

#[test]
fn wrappers_hand_back_their_contents() {
    assert_eq!(BaseUrl::new("a".to_string()).into_inner(), "a");
    assert_eq!(DumpFileName::new("b".to_string()).into_inner(), "b");
    assert_eq!(DumpUrl::new("c".to_string()).into_inner(), "c");
}

#[test]
fn stub_source_serves_its_bytes() {
    let source = StubSource::new(base_url(), b"{}".to_vec(), b"hello".to_vec());
    assert_eq!(source.base_url().as_str(), "https://example.org");
    assert_eq!(source.manifest(), b"{}");
    assert_eq!(source.archive(), b"hello");
    assert_eq!(source.archive_len(), 5);
    let defaulted = StubSource::with_manifest(Vec::new(), b"etl".to_vec());
    assert_eq!(defaulted.base_url().as_str(), "https://example.org");
    assert_eq!(defaulted.archive_len(), 3);
}
