//! Records of the standalone index functions: reports, status and state.
use vstd::prelude::*;

use crate::text::str_eq;

verus! {

/// Result of a full index rebuild.
#[derive(Debug)]
pub struct IndexReport {
    /// Name of the wiki that was indexed.
    pub wiki: String,
    /// Number of pages added to the index.
    pub pages_indexed: usize,
    /// Wall-clock time of the rebuild in milliseconds.
    pub duration_ms: u64,
}

/// Result of an incremental index update.
#[derive(Debug)]
pub struct UpdateReport {
    /// Number of pages added or re-indexed.
    pub updated: usize,
    /// Number of pages removed from the index.
    pub deleted: usize,
}

/// Current health of a wiki's search index.
#[derive(Debug)]
pub struct IndexStatus {
    /// Wiki name.
    pub wiki: String,
    /// Path of the search-index directory.
    pub path: String,
    /// Time of the last successful build, if any.
    pub built: Option<String>,
    /// Number of pages in the index.
    pub pages: usize,
    /// Number of section pages in the index.
    pub sections: usize,
    /// The index is behind HEAD or was built by another schema version.
    pub stale: bool,
    /// The index directory can be opened.
    pub openable: bool,
    /// The index can be queried.
    pub queryable: bool,
}

/// Where to rebuild from when an index turns out to be corrupt.
pub struct RecoveryContext<'a> {
    /// Root of the wiki's pages.
    pub wiki_root: &'a str,
    /// Root of the wiki's repository.
    pub repo_root: &'a str,
}

/// The index schema version this code writes.
pub const CURRENT_SCHEMA_VERSION: u32 = 2;

/// The state persisted beside the index.
#[derive(Debug)]
pub struct IndexState {
    /// Index schema version of the build.
    pub schema_version: u32,
    /// Time of the build.
    pub built: String,
    /// Number of pages at the build.
    pub pages: usize,
    /// Number of section pages at the build.
    pub sections: usize,
    /// HEAD commit at the build.
    pub commit: String,
}

/// The commit an index was built at, from its persisted state (`None` when
/// it cannot be read); none when it records no commit.
pub fn state_commit(state: Option<&IndexState>) -> (r: Option<String>)
    ensures
        match state {
            Some(s) => if s.commit@.len() == 0 {
                r is None
            } else {
                r == Some(s.commit)
            },
            None => r is None,
        },
{
    match state {
        Some(s) => if s.commit.as_str().is_empty() {
            None
        } else {
            Some(s.commit.clone())
        },
        None => None,
    }
}

/// The build facts of an index status from its persisted state (`None` when
/// it cannot be read): when it was built, its counts, and whether it is
/// stale against the current HEAD or the current schema version.
pub fn state_summary(state: Option<&IndexState>, head: &str) -> (r: (Option<String>, usize, usize, bool))
    ensures
        match state {
            Some(s) => r.0 == Some(s.built) && r.1 == s.pages && r.2 == s.sections && r.3 == (
            s.commit@ != head@ || s.schema_version != CURRENT_SCHEMA_VERSION),
            None => r.0 is None && r.1 == 0 && r.2 == 0 && r.3,
        },
{
    match state {
        Some(s) => {
            let stale = !str_eq(s.commit.as_str(), head) || s.schema_version != CURRENT_SCHEMA_VERSION;
            (Some(s.built.clone()), s.pages, s.sections, stale)
        },
        None => (None, 0, 0, true),
    }
}

} // verus!
