//! Selection of the Wikidata dump to download.
//!
//! The caller fetches and decodes the dump status manifest; this module
//! picks the latest completed JSON dump from it, resolves its download URL,
//! and prepares the audit record of a finished download.

use vstd::prelude::*;

use crate::text::{
    CharsOrder, ascii_lower, ascii_lower_code, chars_lt, chars_of, compare_chars, eq_ignore_ascii_case, ends_with,
    lemma_trim_end_char_idempotent, starts_with, string_from_chars, trim_end_char,
};
use crate::urls::{join_url, joined_url, parse_url, parsed_url};

verus! {

/// Default Wikidata dumps endpoint.
pub const DEFAULT_BASE_URL: &'static str = "https://dumps.wikimedia.org";

/// Path of the dump status manifest below the endpoint.
pub const STATUS_PATH: &'static str = "/wikidatawiki/entities/dumpstatus.json";

/// Suffix of the file names of complete JSON dumps.
pub const JSON_DUMP_SUFFIX: &'static str = "-all.json.bz2";

/// Base URL of the Wikidata dump endpoint.
#[derive(Debug, Clone, PartialEq, Eq)]
pub struct BaseUrl(pub String);

impl BaseUrl {
    /// Wrap a URL string.
    pub fn new(value: String) -> (result: Self)
        ensures
            result.0 == value,
    {
        BaseUrl(value)
    }

    /// The inner string.
    pub fn into_inner(self) -> (result: String)
        ensures
            result == self.0,
    {
        self.0
    }

    /// The URL as a string slice.
    pub fn as_str(&self) -> (result: &str)
        ensures
            result@ == self.0@,
    {
        self.0.as_str()
    }
}

impl<'a> From<&'a str> for BaseUrl {
    /// Wrap a copy of a URL string.
    fn from(value: &'a str) -> (result: Self)
        ensures
            result.0@ == value@,
    {
        BaseUrl::new(String::from_str(value))
    }
}

/// The generic contract of `From` (`from` gives `from_spec`) is not
/// claimed: two strings with the same text are not known to be one value.
/// `from` states the text of its result itself.
impl<'a> vstd::std_specs::convert::FromSpecImpl<&'a str> for BaseUrl {
    open spec fn obeys_from_spec() -> bool {
        false
    }

    open spec fn from_spec(v: &'a str) -> Self {
        choose|b: BaseUrl| b.0@ == v@
    }
}

impl AsRef<str> for BaseUrl {
    /// The URL as a string slice.
    fn as_ref(&self) -> (result: &str)
        ensures
            result@ == self.0@,
    {
        self.0.as_str()
    }
}

impl core::ops::Deref for BaseUrl {
    type Target = str;

    /// The URL as a string slice.
    fn deref(&self) -> (result: &str)
        ensures
            result@ == self.0@,
    {
        self.0.as_str()
    }
}

/// File name reported by the Wikidata dump manifest.
#[derive(Debug, Clone, PartialEq, Eq)]
pub struct DumpFileName(pub String);

impl DumpFileName {
    /// Wrap a file name.
    pub fn new(value: String) -> (result: Self)
        ensures
            result.0 == value,
    {
        DumpFileName(value)
    }

    /// The inner string.
    pub fn into_inner(self) -> (result: String)
        ensures
            result == self.0,
    {
        self.0
    }

    /// The file name as a string slice.
    pub fn as_str(&self) -> (result: &str)
        ensures
            result@ == self.0@,
    {
        self.0.as_str()
    }
}

impl<'a> From<&'a str> for DumpFileName {
    /// Wrap a copy of a file name string.
    fn from(value: &'a str) -> (result: Self)
        ensures
            result.0@ == value@,
    {
        DumpFileName::new(String::from_str(value))
    }
}

/// The generic contract of `From` (`from` gives `from_spec`) is not
/// claimed: two strings with the same text are not known to be one value.
/// `from` states the text of its result itself.
impl<'a> vstd::std_specs::convert::FromSpecImpl<&'a str> for DumpFileName {
    open spec fn obeys_from_spec() -> bool {
        false
    }

    open spec fn from_spec(v: &'a str) -> Self {
        choose|b: DumpFileName| b.0@ == v@
    }
}

impl AsRef<str> for DumpFileName {
    /// The file name as a string slice.
    fn as_ref(&self) -> (result: &str)
        ensures
            result@ == self.0@,
    {
        self.0.as_str()
    }
}

impl core::ops::Deref for DumpFileName {
    type Target = str;

    /// The file name as a string slice.
    fn deref(&self) -> (result: &str)
        ensures
            result@ == self.0@,
    {
        self.0.as_str()
    }
}

/// Fully qualified URL pointing to a dump artefact.
#[derive(Debug, Clone, PartialEq, Eq)]
pub struct DumpUrl(pub String);

impl DumpUrl {
    /// Wrap a URL string.
    pub fn new(value: String) -> (result: Self)
        ensures
            result.0 == value,
    {
        DumpUrl(value)
    }

    /// The inner string.
    pub fn into_inner(self) -> (result: String)
        ensures
            result == self.0,
    {
        self.0
    }

    /// The URL as a string slice.
    pub fn as_str(&self) -> (result: &str)
        ensures
            result@ == self.0@,
    {
        self.0.as_str()
    }
}

impl<'a> From<&'a str> for DumpUrl {
    /// Wrap a copy of a URL string.
    fn from(value: &'a str) -> (result: Self)
        ensures
            result.0@ == value@,
    {
        DumpUrl::new(String::from_str(value))
    }
}

/// The generic contract of `From` (`from` gives `from_spec`) is not
/// claimed: two strings with the same text are not known to be one value.
/// `from` states the text of its result itself.
impl<'a> vstd::std_specs::convert::FromSpecImpl<&'a str> for DumpUrl {
    open spec fn obeys_from_spec() -> bool {
        false
    }

    open spec fn from_spec(v: &'a str) -> Self {
        choose|b: DumpUrl| b.0@ == v@
    }
}

impl AsRef<str> for DumpUrl {
    /// The URL as a string slice.
    fn as_ref(&self) -> (result: &str)
        ensures
            result@ == self.0@,
    {
        self.0.as_str()
    }
}

impl core::ops::Deref for DumpUrl {
    type Target = str;

    /// The URL as a string slice.
    fn deref(&self) -> (result: &str)
        ensures
            result@ == self.0@,
    {
        self.0.as_str()
    }
}

/// Describes the dump artefact that should be downloaded.
#[derive(Debug, Clone, PartialEq, Eq)]
pub struct DumpDescriptor {
    /// The file name as reported by the manifest.
    pub file_name: DumpFileName,
    /// Absolute download URL.
    pub url: DumpUrl,
    /// Archive size in bytes, if the manifest gives it.
    pub size: Option<u64>,
    /// SHA-1 checksum reported by the manifest.
    pub sha1: Option<String>,
}

/// The view of an optional string.
pub open spec fn opt_view(s: Option<String>) -> Option<Seq<char>> {
    match s {
        Some(v) => Some(v@),
        None => None,
    }
}

/// The abstract content of a descriptor: file name, URL, size, checksum.
pub type DescriptorModel = (Seq<char>, Seq<char>, Option<u64>, Option<Seq<char>>);

/// The abstract content of a descriptor.
pub open spec fn descriptor_model(d: DumpDescriptor) -> DescriptorModel {
    (d.file_name.0@, d.url.0@, d.size, opt_view(d.sha1))
}

/// Summary of a downloaded artefact.
#[derive(Debug, PartialEq, Eq)]
pub struct DownloadReport {
    /// Descriptor derived from the manifest.
    pub descriptor: DumpDescriptor,
    /// Number of bytes written to disk.
    pub bytes_written: u64,
    /// Final location of the archive.
    pub output_path: std::path::PathBuf,
}

/// Transport-level errors encountered while issuing HTTP requests.
#[derive(Debug)]
pub enum TransportError {
    /// The server returned an HTTP error status.
    Http {
        /// Fully qualified request URL.
        url: String,
        /// HTTP status code.
        status: u16,
        /// Short error description supplied by the server.
        message: String,
    },
    /// The request failed due to an I/O error.
    Network {
        /// Fully qualified request URL.
        url: String,
        /// I/O error reported by the transport.
        source: std::io::Error,
    },
}

/// Errors produced while preparing or downloading a Wikidata dump.
#[derive(Debug)]
pub enum WikidataDumpError {
    /// The dump status manifest could not be fetched.
    StatusFetch { source: TransportError },
    /// The dump archive could not be downloaded.
    Download { source: TransportError },
    /// Parsing the manifest failed.
    ParseManifest { source: simd_json::Error },
    /// The manifest did not contain a completed dump.
    MissingDump,
    /// Preparing the output directory failed.
    CreateDir { source: std::io::Error, path: std::path::PathBuf },
    /// Writing the dump to disk failed.
    WriteDump { source: std::io::Error, path: std::path::PathBuf },
    /// The downloaded archive size did not match the manifest metadata.
    SizeMismatch { expected: u64, actual: u64 },
    /// Initialising the download log failed.
    InitialiseLog { source: rusqlite::Error, path: std::path::PathBuf },
    /// Recording metadata failed when interacting with SQLite.
    RecordLogSql { source: rusqlite::Error },
    /// A value of the download record does not fit its SQLite column;
    /// `what` names the value.
    RecordLogValue { what: String },
}

/// A file entry of the manifest.
#[derive(Debug, Clone)]
pub struct DumpFile {
    pub url: Option<String>,
    pub size: Option<u64>,
    pub sha1: Option<String>,
}

/// A job of the manifest: its status and its files.
#[derive(Debug, Clone)]
pub struct DumpJob {
    pub status: Option<String>,
    pub files: Vec<(String, DumpFile)>,
}

/// The dump status manifest: its jobs, in the order the caller lists them.
#[derive(Debug, Clone)]
pub struct DumpStatus {
    pub jobs: Vec<(String, DumpJob)>,
}

/// A job is done when its status equals `done` up to ASCII case.
pub open spec fn spec_job_is_done(job: DumpJob) -> bool {
    match job.status {
        Some(s) => eq_ignore_ascii_case(s@, "done"@),
        None => false,
    }
}

/// Equality up to ASCII case of two strings.
pub fn str_eq_ignore_ascii_case(a: &str, b: &str) -> (result: bool)
    ensures
        result == eq_ignore_ascii_case(a@, b@),
{
    let ca = chars_of(a);
    let cb = chars_of(b);
    if ca.len() != cb.len() {
        return false;
    }
    let mut i: usize = 0;
    while i < ca.len()
        invariant
            ca@ == a@,
            cb@ == b@,
            ca@.len() == cb@.len(),
            i <= ca@.len(),
            forall|k: int| 0 <= k < i ==> ascii_lower(#[trigger] ca@[k]) == ascii_lower(cb@[k]),
        decreases ca@.len() - i,
    {
        let x = ca[i];
        let y = cb[i];
        let lx = ascii_lower_code(x);
        let ly = ascii_lower_code(y);
        if lx != ly {
            return false;
        }
        i = i + 1;
    }
    true
}

impl DumpJob {
    /// Whether the job finished (status `done`, ignoring ASCII case).
    pub fn is_done(&self) -> (result: bool)
        ensures
            result == spec_job_is_done(*self),
    {
        match &self.status {
            Some(s) => str_eq_ignore_ascii_case(s.as_str(), "done"),
            None => false,
        }
    }
}

/// The meaning of `sanitise_base_url`: trailing slashes removed, and the
/// default endpoint for an empty result.
pub open spec fn spec_sanitise_base_url(url: Seq<char>) -> Seq<char> {
    let trimmed = trim_end_char(url, '/');
    if trimmed.len() == 0 {
        DEFAULT_BASE_URL@
    } else {
        trimmed
    }
}

/// Sanitising a sanitised base URL changes nothing: the result never ends
/// with a slash.
pub proof fn lemma_sanitise_base_url_idempotent(url: Seq<char>)
    ensures
        spec_sanitise_base_url(spec_sanitise_base_url(url)) == spec_sanitise_base_url(url),
        !ends_with(spec_sanitise_base_url(url), "/"@),
{
    reveal_strlit("https://dumps.wikimedia.org");
    reveal_strlit("/");
    lemma_trim_end_char_idempotent(url, '/');
    let t = trim_end_char(url, '/');
    if t.len() == 0 {
        let d = DEFAULT_BASE_URL@;
        assert(d.last() == 'g');
        assert(trim_end_char(d, '/') == d);
        assert(d.subrange(d.len() - 1, d.len() as int)[0] == 'g');
        assert("/"@[0] == '/');
    } else {
        assert(t.subrange(t.len() - 1, t.len() as int)[0] == t.last());
        assert("/"@[0] == '/');
    }
}

/// Trim trailing slashes and fall back to the default Wikidata endpoint.
pub fn sanitise_base_url(url: &str) -> (result: BaseUrl)
    ensures
        result.0@ == spec_sanitise_base_url(url@),
{
    let chars = chars_of(url);
    let mut j = chars.len();
    assert(chars@.subrange(0, j as int) == url@);
    while j > 0 && chars[j - 1] == '/'
        invariant
            j <= chars@.len(),
            trim_end_char(url@, '/') == trim_end_char(chars@.subrange(0, j as int), '/'),
        decreases j,
    {
        proof {
            let t = chars@.subrange(0, j as int);
            assert(t.drop_last() == chars@.subrange(0, j - 1));
            assert(t.last() == chars@[j - 1]);
        }
        j = j - 1;
    }
    proof {
        let t = chars@.subrange(0, j as int);
        if j > 0 {
            assert(t.last() == chars@[j - 1]);
        }
    }
    if j == 0 {
        BaseUrl::new(String::from_str(DEFAULT_BASE_URL))
    } else {
        BaseUrl::new(string_from_chars(&chars, 0, j))
    }
}

/// URL of the dump status manifest below an endpoint.
pub fn status_url(base_url: &BaseUrl) -> (result: DumpUrl)
    ensures
        result.0@ == base_url.0@ + STATUS_PATH@,
{
    let mut url = base_url.0.clone();
    url.append(STATUS_PATH);
    DumpUrl::new(url)
}

/// The meaning of `normalise_url`: an absolute `http`/`https` reference is
/// parsed on its own, anything else is resolved against the base URL.
pub open spec fn spec_normalise_url(base_url: Seq<char>, relative: Seq<char>) -> Option<Seq<char>> {
    if starts_with(relative, "http://"@) || starts_with(relative, "https://"@) {
        parsed_url(relative)
    } else {
        joined_url(base_url, relative)
    }
}

/// Whether `s` starts with `prefix`.
pub fn str_starts_with(s: &str, prefix: &str) -> (result: bool)
    ensures
        result == starts_with(s@, prefix@),
{
    let cs = chars_of(s);
    let cp = chars_of(prefix);
    if cp.len() > cs.len() {
        return false;
    }
    let mut i: usize = 0;
    while i < cp.len()
        invariant
            cs@ == s@,
            cp@ == prefix@,
            cp@.len() <= cs@.len(),
            i <= cp@.len(),
            forall|k: int| 0 <= k < i ==> cs@[k] == cp@[k],
        decreases cp@.len() - i,
    {
        if cs[i] != cp[i] {
            proof {
                assert(cs@.subrange(0, cp@.len() as int)[i as int] == cs@[i as int]);
            }
            return false;
        }
        i = i + 1;
    }
    assert(cs@.subrange(0, cp@.len() as int) =~= cp@);
    true
}

/// Whether `s` ends with `suffix`.
pub fn str_ends_with(s: &str, suffix: &str) -> (result: bool)
    ensures
        result == ends_with(s@, suffix@),
{
    let cs = chars_of(s);
    let cp = chars_of(suffix);
    if cp.len() > cs.len() {
        return false;
    }
    let off = cs.len() - cp.len();
    let mut i: usize = 0;
    while i < cp.len()
        invariant
            cs@ == s@,
            cp@ == suffix@,
            off + cp@.len() == cs@.len(),
            cs@.len() == cs.len(),
            cp@.len() <= cs@.len(),
            i <= cp@.len(),
            forall|k: int| 0 <= k < i ==> cs@[off + k] == cp@[k],
        decreases cp@.len() - i,
    {
        if cs[off + i] != cp[i] {
            proof {
                assert(cs@.subrange(off as int, cs@.len() as int)[i as int] == cs@[off + i]);
            }
            return false;
        }
        i = i + 1;
    }
    assert(cs@.subrange(off as int, cs@.len() as int) =~= cp@);
    true
}

/// Resolve the URL of a manifest entry against the endpoint.
pub fn normalise_url(base_url: &BaseUrl, relative: &str) -> (result: Result<DumpUrl, url::ParseError>)
    ensures
        match result {
            Ok(u) => spec_normalise_url(base_url.0@, relative@) == Some(u.0@),
            Err(_) => spec_normalise_url(base_url.0@, relative@) is None,
        },
{
    let resolved = if str_starts_with(relative, "http://") || str_starts_with(relative, "https://") {
        parse_url(relative)
    } else {
        join_url(base_url.as_str(), relative)
    };
    match resolved {
        Ok(s) => Ok(DumpUrl::new(s)),
        Err(e) => Err(e),
    }
}

/// The descriptor a manifest entry yields, given the outcome of resolving
/// its URL: nothing without a URL or with an unresolvable one.
pub open spec fn spec_entry_descriptor(
    file_name: Seq<char>,
    entry: DumpFile,
    resolved: Option<Seq<char>>,
) -> Option<DescriptorModel> {
    match entry.url {
        None => None,
        Some(_) => match resolved {
            None => None,
            Some(url) => Some((file_name, url, entry.size, opt_view(entry.sha1))),
        },
    }
}

/// The descriptor of a manifest entry whose URL resolved to `resolved`
/// (`None` when resolution failed).
pub fn descriptor_from_resolved(file_name: &str, entry: &DumpFile, resolved: Option<String>) -> (result: Option<DumpDescriptor>)
    ensures
        match result {
            Some(d) => spec_entry_descriptor(file_name@, *entry, opt_view(resolved)) == Some(
                descriptor_model(d),
            ),
            None => spec_entry_descriptor(file_name@, *entry, opt_view(resolved)) is None,
        },
{
    if entry.url.is_none() {
        return None;
    }
    match resolved {
        None => None,
        Some(url) => Some(
            DumpDescriptor {
                file_name: DumpFileName::new(String::from_str(file_name)),
                url: DumpUrl::new(url),
                size: entry.size,
                sha1: entry.sha1.clone(),
            },
        ),
    }
}

/// The resolved URL of an entry, if it has one and it resolves.
pub open spec fn spec_entry_url(base_url: Seq<char>, entry: DumpFile) -> Option<Seq<char>> {
    match entry.url {
        None => None,
        Some(u) => spec_normalise_url(base_url, u@),
    }
}

impl DumpDescriptor {
    /// The descriptor of a manifest entry: its URL resolved against the
    /// endpoint; nothing when the entry has no URL or it does not resolve.
    pub fn from_manifest_entry(file_name: &str, entry: &DumpFile, base_url: &BaseUrl) -> (result:
        Option<DumpDescriptor>)
        ensures
            match result {
                Some(d) => spec_entry_descriptor(
                    file_name@,
                    *entry,
                    spec_entry_url(base_url.0@, *entry),
                ) == Some(descriptor_model(d)),
                None => spec_entry_descriptor(
                    file_name@,
                    *entry,
                    spec_entry_url(base_url.0@, *entry),
                ) is None,
            },
    {
        let resolved = match &entry.url {
            None => None,
            Some(relative) => match normalise_url(base_url, relative.as_str()) {
                Ok(u) => Some(u.into_inner()),
                Err(_) => None,
            },
        };
        descriptor_from_resolved(file_name, entry, resolved)
    }
}

/// The descriptors offered by the files of a job: files whose name ends
/// with `-all.json.bz2` and whose URL resolves, in order.
pub open spec fn file_candidates(files: Seq<(String, DumpFile)>, base_url: Seq<char>) -> Seq<
    DescriptorModel,
>
    decreases files.len(),
{
    if files.len() == 0 {
        Seq::empty()
    } else {
        let rest = file_candidates(files.drop_last(), base_url);
        let (name, entry) = files.last();
        if ends_with(name@, JSON_DUMP_SUFFIX@) {
            match spec_entry_descriptor(name@, entry, spec_entry_url(base_url, entry)) {
                Some(d) => rest.push(d),
                None => rest,
            }
        } else {
            rest
        }
    }
}

/// Whether file `f` of job `j` is a completed JSON dump: the job is done,
/// the file name ends with `-all.json.bz2` and its URL resolves.
pub open spec fn json_dump_in_done_job(jobs: Seq<(String, DumpJob)>, base_url: Seq<char>, j: int, f: int) -> bool {
    &&& 0 <= j < jobs.len()
    &&& spec_job_is_done(jobs[j].1)
    &&& 0 <= f < jobs[j].1.files@.len()
    &&& ends_with(jobs[j].1.files@[f].0@, JSON_DUMP_SUFFIX@)
    &&& spec_entry_url(base_url, jobs[j].1.files@[f].1) is Some
}

/// The descriptor of a manifest file whose URL resolves: its name, the
/// resolved URL, its size and checksum.
pub open spec fn manifest_file_model(base_url: Seq<char>, file: (String, DumpFile)) -> DescriptorModel {
    (file.0@, spec_entry_url(base_url, file.1).unwrap(), file.1.size, opt_view(file.1.sha1))
}

/// Whether `x` is the descriptor of a completed JSON dump of the manifest
/// (see [`json_dump_in_done_job`]).
pub open spec fn is_json_dump_of(jobs: Seq<(String, DumpJob)>, base_url: Seq<char>, x: DescriptorModel) -> bool {
    exists|j: int, f: int|
        #[trigger] json_dump_in_done_job(jobs, base_url, j, f) && x == manifest_file_model(
            base_url,
            jobs[j].1.files@[f],
        )
}

/// The candidates of a job's files are exactly the descriptors of its files
/// that end with `-all.json.bz2` and whose URL resolves.
proof fn lemma_file_candidates_exact(files: Seq<(String, DumpFile)>, base_url: Seq<char>)
    ensures
        forall|f: int|
            0 <= f < files.len() && ends_with(files[f].0@, JSON_DUMP_SUFFIX@) && spec_entry_url(
                base_url,
                files[f].1,
            ) is Some ==> file_candidates(files, base_url).contains(
                manifest_file_model(base_url, #[trigger] files[f]),
            ),
        forall|k: int|
            0 <= k < file_candidates(files, base_url).len() ==> exists|f: int|
                0 <= f < files.len() && ends_with(files[f].0@, JSON_DUMP_SUFFIX@) && spec_entry_url(
                    base_url,
                    files[f].1,
                ) is Some && #[trigger] file_candidates(files, base_url)[k] == manifest_file_model(
                    base_url,
                    files[f],
                ),
    decreases files.len(),
{
    if files.len() > 0 {
        let rest = files.drop_last();
        lemma_file_candidates_exact(rest, base_url);
        let n = files.len() - 1;
        let prev = file_candidates(rest, base_url);
        let all = file_candidates(files, base_url);
        assert(files[n] == files.last());
        assert forall|f: int|
            0 <= f < files.len() && ends_with(files[f].0@, JSON_DUMP_SUFFIX@) && spec_entry_url(
                base_url,
                files[f].1,
            ) is Some implies all.contains(manifest_file_model(base_url, #[trigger] files[f])) by {
            if f < n {
                assert(rest[f] == files[f]);
                let k = choose|k: int| 0 <= k < prev.len() && prev[k] == manifest_file_model(base_url, rest[f]);
                assert(all[k] == prev[k]);
            } else {
                assert(all.last() == manifest_file_model(base_url, files[f]));
                assert(all[all.len() - 1] == all.last());
            }
        }
        assert forall|k: int| 0 <= k < all.len() implies exists|f: int|
            0 <= f < files.len() && ends_with(files[f].0@, JSON_DUMP_SUFFIX@) && spec_entry_url(
                base_url,
                files[f].1,
            ) is Some && #[trigger] all[k] == manifest_file_model(base_url, files[f]) by {
            if k < prev.len() {
                assert(all[k] == prev[k]);
                let f = choose|f: int|
                    0 <= f < rest.len() && ends_with(rest[f].0@, JSON_DUMP_SUFFIX@) && spec_entry_url(
                        base_url,
                        rest[f].1,
                    ) is Some && #[trigger] prev[k] == manifest_file_model(base_url, rest[f]);
                assert(rest[f] == files[f]);
            } else {
                assert(all[k] == manifest_file_model(base_url, files[n]));
            }
        }
    }
}

/// The candidates of a manifest are exactly the completed JSON dumps of its
/// done jobs: every file of a done job that ends with `-all.json.bz2` and
/// whose URL resolves is a candidate, whichever job it belongs to, and every
/// candidate is such a file.
pub proof fn lemma_job_candidates_exact(jobs: Seq<(String, DumpJob)>, base_url: Seq<char>)
    ensures
        forall|j: int, f: int|
            #[trigger] json_dump_in_done_job(jobs, base_url, j, f) ==> job_candidates(jobs, base_url).contains(
                manifest_file_model(base_url, jobs[j].1.files@[f]),
            ),
        forall|k: int|
            0 <= k < job_candidates(jobs, base_url).len() ==> is_json_dump_of(
                jobs,
                base_url,
                #[trigger] job_candidates(jobs, base_url)[k],
            ),
    decreases jobs.len(),
{
    if jobs.len() > 0 {
        let rest = jobs.drop_last();
        let n = jobs.len() - 1;
        lemma_job_candidates_exact(rest, base_url);
        let job = jobs.last().1;
        assert(jobs[n] == jobs.last());
        let prev = job_candidates(rest, base_url);
        let all = job_candidates(jobs, base_url);
        lemma_file_candidates_exact(job.files@, base_url);
        let fc = file_candidates(job.files@, base_url);
        assert forall|j: int, f: int| #[trigger] json_dump_in_done_job(jobs, base_url, j, f) implies all.contains(
            manifest_file_model(base_url, jobs[j].1.files@[f]),
        ) by {
            if j < n {
                assert(rest[j] == jobs[j]);
                assert(json_dump_in_done_job(rest, base_url, j, f));
                let k = choose|k: int| 0 <= k < prev.len() && prev[k] == manifest_file_model(base_url, rest[j].1.files@[f]);
                if spec_job_is_done(job) {
                    assert(all == prev + fc);
                } else {
                    assert(all == prev);
                }
                assert(all[k] == prev[k]);
            } else {
                assert(all == prev + fc);
                let x = manifest_file_model(base_url, job.files@[f]);
                assert(fc.contains(manifest_file_model(base_url, job.files@[f])));
                let k = choose|k: int| 0 <= k < fc.len() && fc[k] == x;
                assert(all[prev.len() + k] == fc[k]);
            }
        }
        assert forall|k: int| 0 <= k < all.len() implies is_json_dump_of(jobs, base_url, #[trigger] all[k]) by {
            if spec_job_is_done(job) {
                assert(all == prev + fc);
            } else {
                assert(all == prev);
            }
            if k < prev.len() {
                assert(all[k] == prev[k]);
                assert(is_json_dump_of(rest, base_url, prev[k]));
                let (j, f) = choose|j: int, f: int|
                    #[trigger] json_dump_in_done_job(rest, base_url, j, f) && prev[k] == manifest_file_model(
                        base_url,
                        rest[j].1.files@[f],
                    );
                assert(rest[j] == jobs[j]);
                assert(json_dump_in_done_job(jobs, base_url, j, f));
            } else {
                let i = k - prev.len();
                assert(all[k] == fc[i]);
                let f = choose|f: int|
                    0 <= f < job.files@.len() && ends_with(job.files@[f].0@, JSON_DUMP_SUFFIX@) && spec_entry_url(
                        base_url,
                        job.files@[f].1,
                    ) is Some && #[trigger] fc[i] == manifest_file_model(base_url, job.files@[f]);
                assert(json_dump_in_done_job(jobs, base_url, n, f));
            }
        }
    }
}

/// The descriptors offered by the completed jobs of a manifest, in order.
pub open spec fn job_candidates(jobs: Seq<(String, DumpJob)>, base_url: Seq<char>) -> Seq<
    DescriptorModel,
>
    decreases jobs.len(),
{
    if jobs.len() == 0 {
        Seq::empty()
    } else {
        let rest = job_candidates(jobs.drop_last(), base_url);
        let job = jobs.last().1;
        if spec_job_is_done(job) {
            rest + file_candidates(job.files@, base_url)
        } else {
            rest
        }
    }
}

/// The candidate with the greatest file name, the last one among equal
/// names (the choice of `Iterator::max_by`).
pub open spec fn latest(candidates: Seq<DescriptorModel>) -> Option<DescriptorModel>
    decreases candidates.len(),
{
    if candidates.len() == 0 {
        None
    } else {
        let last = candidates.last();
        match latest(candidates.drop_last()) {
            None => Some(last),
            Some(best) => if chars_lt(last.0, best.0) {
                Some(best)
            } else {
                Some(last)
            },
        }
    }
}

/// The latest of a sequence of descriptors (see [`latest`]).
pub fn select_latest(candidates: Vec<DumpDescriptor>) -> (result: Option<DumpDescriptor>)
    ensures
        match result {
            Some(d) => latest(candidates@.map_values(|c: DumpDescriptor| descriptor_model(c)))
                == Some(descriptor_model(d)),
            None => latest(candidates@.map_values(|c: DumpDescriptor| descriptor_model(c))) is None,
        },
{
    let ghost models = candidates@.map_values(|c: DumpDescriptor| descriptor_model(c));
    let ghost all = candidates@;
    let mut best: Option<DumpDescriptor> = None;
    let mut best_chars: Vec<char> = Vec::new();
    for cand in it: candidates
        invariant
            it.seq() == all,
            models == all.map_values(|c: DumpDescriptor| descriptor_model(c)),
            match best {
                Some(b) => latest(models.take(it.index() as int)) == Some(descriptor_model(b))
                    && best_chars@ == b.file_name.0@,
                None => latest(models.take(it.index() as int)) is None,
            },
    {
        proof {
            let t = models.take(it.index() + 1);
            assert(t.drop_last() == models.take(it.index() as int));
            assert(t.last() == descriptor_model(cand));
        }
        let cand_chars = chars_of(cand.file_name.as_str());
        let replace = match &best {
            None => true,
            Some(_) => match compare_chars(&cand_chars, &best_chars) {
                CharsOrder::Less => false,
                _ => true,
            },
        };
        if replace {
            best = Some(cand);
            best_chars = cand_chars;
        }
    }
    assert(models.take(models.len() as int) == models);
    best
}

/// Choose the latest completed JSON dump of a manifest: among the files of
/// done jobs whose name ends with `-all.json.bz2` and whose URL resolves
/// against the endpoint, the one with the greatest file name;
/// [`WikidataDumpError::MissingDump`] when there is none. Every such file of
/// any done job is considered (see [`json_dump_in_done_job`]): the result
/// is one of them and no file name among them is greater.
pub fn select_dump(status: &DumpStatus, base_url: &BaseUrl) -> (result: Result<DumpDescriptor, WikidataDumpError>)
    ensures
        match result {
            Ok(d) => latest(job_candidates(status.jobs@, base_url.0@)) == Some(descriptor_model(d)),
            Err(e) => e is MissingDump && latest(job_candidates(status.jobs@, base_url.0@)) is None,
        },
        forall|j: int, f: int|
            #[trigger] json_dump_in_done_job(status.jobs@, base_url.0@, j, f) ==> (result matches Ok(d)
                && !chars_lt(d.file_name.0@, status.jobs@[j].1.files@[f].0@)),
        result matches Ok(d) ==> is_json_dump_of(status.jobs@, base_url.0@, descriptor_model(d)),
{
    proof {
        lemma_job_candidates_exact(status.jobs@, base_url.0@);
        lemma_latest_is_greatest(job_candidates(status.jobs@, base_url.0@));
    }
    let mut candidates: Vec<DumpDescriptor> = Vec::new();
    let mut j: usize = 0;
    while j < status.jobs.len()
        invariant
            j <= status.jobs@.len(),
            candidates@.map_values(|c: DumpDescriptor| descriptor_model(c)) == job_candidates(
                status.jobs@.take(j as int),
                base_url.0@,
            ),
        decreases status.jobs@.len() - j,
    {
        let job = &status.jobs[j].1;
        let ghost before = candidates@.map_values(|c: DumpDescriptor| descriptor_model(c));
        proof {
            let t = status.jobs@.take(j + 1);
            assert(t.drop_last() == status.jobs@.take(j as int));
            assert(t.last().1 == *job);
        }
        if job.is_done() {
            let mut k: usize = 0;
            assert(before + file_candidates(job.files@.take(0), base_url.0@) =~= before);
            while k < job.files.len()
                invariant
                    k <= job.files@.len(),
                    candidates@.map_values(|c: DumpDescriptor| descriptor_model(c)) == before
                        + file_candidates(job.files@.take(k as int), base_url.0@),
                decreases job.files@.len() - k,
            {
                let name = &job.files[k].0;
                let entry = &job.files[k].1;
                proof {
                    let t = job.files@.take(k + 1);
                    assert(t.drop_last() == job.files@.take(k as int));
                    assert(t.last() == job.files@[k as int]);
                }
                let ghost c0 = candidates@;
                if str_ends_with(name.as_str(), JSON_DUMP_SUFFIX) {
                    match DumpDescriptor::from_manifest_entry(name.as_str(), entry, base_url) {
                        Some(d) => {
                            candidates.push(d);
                            proof {
                                assert(candidates@ == c0.push(d));
                                assert(candidates@.map_values(|c: DumpDescriptor| descriptor_model(c))
                                    =~= c0.map_values(|c: DumpDescriptor| descriptor_model(c)).push(
                                    descriptor_model(d),
                                ));
                                assert((before + file_candidates(job.files@.take(k as int), base_url.0@)).push(
                                    descriptor_model(d),
                                ) =~= before + file_candidates(job.files@.take(k as int), base_url.0@).push(
                                    descriptor_model(d),
                                ));
                            }
                        },
                        None => {},
                    }
                }
                k = k + 1;
            }
            assert(job.files@.take(job.files@.len() as int) == job.files@);
        } else {
        }
        j = j + 1;
    }
    assert(status.jobs@.take(status.jobs@.len() as int) == status.jobs@);
    let result = match select_latest(candidates) {
        Some(d) => Ok(d),
        None => Err(WikidataDumpError::MissingDump),
    };
    proof {
        let jobs = status.jobs@;
        let b = base_url.0@;
        let cands = job_candidates(jobs, b);
        assert forall|j: int, f: int| #[trigger] json_dump_in_done_job(jobs, b, j, f) implies (result matches Ok(d)
            && !chars_lt(d.file_name.0@, jobs[j].1.files@[f].0@)) by {
            let x = manifest_file_model(b, jobs[j].1.files@[f]);
            assert(cands.contains(x));
            let i = choose|i: int| 0 <= i < cands.len() && cands[i] == x;
            assert(!chars_lt(latest(cands).unwrap().0, cands[i].0));
        }
        if result is Ok {
            let best = latest(cands).unwrap();
            let i = choose|i: int| 0 <= i < cands.len() && cands[i] == best;
            assert(cands[i] == best);
        }
    }
    result
}

/// The latest candidate is one of the candidates, and no candidate has a
/// greater file name; there is one exactly when there are candidates.
pub proof fn lemma_latest_is_greatest(candidates: Seq<DescriptorModel>)
    ensures
        latest(candidates) is None <==> candidates.len() == 0,
        latest(candidates) matches Some(best) ==> {
            &&& candidates.contains(best)
            &&& forall|i: int| 0 <= i < candidates.len() ==> !chars_lt(best.0, #[trigger] candidates[i].0)
        },
    decreases candidates.len(),
{
    if candidates.len() > 0 {
        let rest = candidates.drop_last();
        lemma_latest_is_greatest(rest);
        let last = candidates.last();
        match latest(rest) {
            None => {
                assert(candidates[candidates.len() - 1] == last);
                crate::text::lemma_chars_lt_irreflexive(last.0);
            },
            Some(b) => {
                let k = choose|k: int| 0 <= k < rest.len() && rest[k] == b;
                assert(candidates[k] == b);
                assert(candidates[candidates.len() - 1] == last);
                if chars_lt(last.0, b.0) {
                    assert(latest(candidates) == Some(b));
                    assert forall|i: int| 0 <= i < candidates.len() implies !chars_lt(b.0, #[trigger] candidates[i].0) by {
                        if i < rest.len() {
                            assert(candidates[i] == rest[i]);
                        } else {
                            crate::text::lemma_chars_lt_asymmetric(last.0, b.0);
                        }
                    }
                } else {
                    assert(latest(candidates) == Some(last));
                    assert forall|i: int| 0 <= i < candidates.len() implies !chars_lt(last.0, #[trigger] candidates[i].0) by {
                        if i < rest.len() {
                            assert(candidates[i] == rest[i]);
                            assert(!chars_lt(b.0, rest[i].0));
                            if chars_lt(last.0, rest[i].0) {
                                if rest[i].0 != b.0 {
                                    crate::text::lemma_chars_lt_total(b.0, rest[i].0);
                                    crate::text::lemma_chars_lt_transitive(last.0, rest[i].0, b.0);
                                }
                            }
                        } else {
                            crate::text::lemma_chars_lt_irreflexive(last.0);
                        }
                    }
                }
            },
        }
    }
}

} // verus!
