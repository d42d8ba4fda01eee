//! Sources of Wikidata dumps.
//!
//! A source names the endpoint that its manifest's relative URLs resolve
//! against. Fetching the manifest and streaming archives is transport work
//! that the caller performs; the in-memory [`StubSource`] holds the bytes it
//! serves.

use vstd::prelude::*;

use crate::dump::BaseUrl;

verus! {

/// User agent sent with dump requests.
pub const DEFAULT_USER_AGENT: &'static str = "wildside-wikidata-etl/0.1";

/// Endpoint of the stub source unless another is given.
pub const STUB_BASE_URL: &'static str = "https://example.org";

/// A source of Wikidata dumps.
pub trait DumpSource {
    /// Base URL of the dump endpoint.
    fn base_url(&self) -> &BaseUrl;
}

/// A dump source backed by in-memory data: a base URL, the manifest bytes
/// it serves, and the archive bytes it streams.
#[derive(Debug, Clone)]
pub struct StubSource {
    base_url: BaseUrl,
    manifest: Vec<u8>,
    archive: Vec<u8>,
}

impl StubSource {
    /// The endpoint of the source.
    pub closed spec fn spec_base_url(&self) -> Seq<char> {
        self.base_url.0@
    }

    /// The manifest bytes the source serves.
    pub closed spec fn spec_manifest(&self) -> Seq<u8> {
        self.manifest@
    }

    /// The archive bytes the source streams.
    pub closed spec fn spec_archive(&self) -> Seq<u8> {
        self.archive@
    }

    /// A stub source with an explicit base URL, manifest, and archive.
    pub fn new(base_url: BaseUrl, manifest: Vec<u8>, archive: Vec<u8>) -> (result: Self)
        ensures
            result.spec_base_url() == base_url.0@,
            result.spec_manifest() == manifest@,
            result.spec_archive() == archive@,
    {
        StubSource { base_url, manifest, archive }
    }

    /// A stub source at `https://example.org` with the given manifest and
    /// archive.
    pub fn with_manifest(manifest: Vec<u8>, archive: Vec<u8>) -> (result: Self)
        ensures
            result.spec_base_url() == STUB_BASE_URL@,
            result.spec_manifest() == manifest@,
            result.spec_archive() == archive@,
    {
        StubSource::new(BaseUrl::new(String::from_str(STUB_BASE_URL)), manifest, archive)
    }

    /// The in-memory archive bytes.
    pub fn archive(&self) -> (result: &[u8])
        ensures
            result@ == self.spec_archive(),
    {
        self.archive.as_slice()
    }

    /// The in-memory manifest bytes.
    pub fn manifest(&self) -> (result: &[u8])
        ensures
            result@ == self.spec_manifest(),
    {
        self.manifest.as_slice()
    }

    /// The number of bytes a download from this source writes.
    pub fn archive_len(&self) -> (result: u64)
        ensures
            result == self.spec_archive().len(),
    {
        self.archive.len() as u64
    }
}

impl DumpSource for StubSource {
    fn base_url(&self) -> (result: &BaseUrl)
        ensures
            result.0@ == self.spec_base_url(),
    {
        &self.base_url
    }
}

} // verus!
