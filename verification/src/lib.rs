//! Verified core of a parallel playlist segment downloader.
//!
//! The library covers the logic of the pipeline: extracting segment names
//! from a playlist document, loading the header set, filtering out segments
//! already on disk, partitioning the remaining work across workers, and the
//! per-worker delivery discipline. All file and network I/O lives outside
//! the library and hands it plain values.

use vstd::prelude::*;

pub mod extract;
pub mod headers;
pub mod pipeline;
pub mod resume;
pub mod schedule;
pub mod worker;

verus! {

/// A configuration failure that must stop the run before any work is done.
#[derive(Debug)]
pub enum FatalError {
    /// The playlist document yields no segment token at all.
    EmptyPlaylist,
    /// The header document is not well-formed.
    MalformedHeaderDoc,
}

impl FatalError {
    /// The diagnostic printed for this failure.
    pub fn message(&self) -> (r: &'static str)
        ensures
            *self is EmptyPlaylist ==> r@ == "m3u8 format is invalid"@,
            *self is MalformedHeaderDoc ==> r@ == "header file is invalid"@,
    {
        match self {
            FatalError::EmptyPlaylist => "m3u8 format is invalid",
            FatalError::MalformedHeaderDoc => "header file is invalid",
        }
    }
}

/// Configuration for one download run: playlist path, base URL, output
/// directory, optional header-document path, and the resume flag.
#[derive(Debug)]
pub struct M3U8 {
    pub path: String,
    pub base_url: String,
    pub output: String,
    pub header: String,
    pub resume: bool,
}

impl M3U8 {
    pub fn new(path: &str, base_url: &str, output: &str, header: &str, resume: bool) -> (r: M3U8)
        ensures
            r.path@ == path@,
            r.base_url@ == base_url@,
            r.output@ == output@,
            r.header@ == header@,
            r.resume == resume,
    {
        M3U8 {
            path: path.to_owned(),
            base_url: base_url.to_owned(),
            output: output.to_owned(),
            header: header.to_owned(),
            resume: resume,
        }
    }

    /// Whether a header document is configured at all: without one the
    /// header set is empty and no document is read.
    pub fn has_header_doc(&self) -> (r: bool)
        ensures
            r == (self.header@.len() != 0),
    {
        !self.header.as_str().is_empty()
    }
}

} // verus!
