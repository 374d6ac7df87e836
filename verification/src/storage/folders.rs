//! The directory-size tree as stored and served.
//!
//! The rows live in SQLite beside the metrics; running the statements is
//! the caller's job. This module shapes what goes in and what comes out.
use vstd::prelude::*;
use crate::paths::{PathView, components, path_text, path_string, path_components};
use crate::collector::folder_sizes::FolderSize;
use crate::text::{push_str, chars_of, parse_i64_spec, parse_i64_str};

verus! {

/// Meta key holding the time (Unix ms) of the last completed full scan.
pub const META_LAST_FULL_SCAN: &'static str = "folder_scan_completed_at";

/// One row as the API serves it.
#[derive(Debug, PartialEq, Eq)]
pub struct FolderRow {
    pub path: String,
    pub name: String,
    pub size_bytes: i64,
    pub file_count: i64,
    /// Unix ms when this row was last measured.
    pub scanned_at: i64,
    /// Entries beneath it that could not be read; non-zero means the size
    /// is a lower bound.
    pub unreadable: i64,
    /// Whether it has recorded children to drill into.
    pub has_children: bool,
}

/// The final component of a path (`Path::file_name`), or the whole path
/// when there is none, as for `/`.
pub open spec fn leaf_spec(path: Seq<char>) -> Seq<char> {
    let c = components(path);
    if c.len() == 0 || c.last() == seq!['.', '.'] {
        path
    } else {
        c.last()
    }
}

pub fn leaf_name(path: &str) -> (r: String)
    ensures
        r@ == leaf_spec(path@),
{
    let c = path_components(path);
    let n = c.len();
    if n == 0 {
        let mut r = String::new();
        push_str(&mut r, path);
        return r;
    }
    let last = &c[n - 1];
    assert(c.deep_view()[n - 1] == last@);
    if crate::text::str_eq(last.as_str(), "..") {
        proof {
            reveal_strlit("..");
            assert(".."@ =~= seq!['.', '.']);
        }
        let mut r = String::new();
        push_str(&mut r, path);
        return r;
    }
    proof {
        reveal_strlit("..");
        assert(".."@ =~= seq!['.', '.']);
    }
    last.clone()
}

/// A row to store: text path and parent, figures as SQLite integers (a
/// figure past `i64::MAX` wraps, as `as i64` does).
#[derive(Debug)]
pub struct FolderRecord {
    pub path: String,
    pub parent: String,
    pub size_bytes: i64,
    pub file_count: i64,
    pub scanned_at: i64,
    pub unreadable: i64,
}

pub fn folder_record(f: &FolderSize, scanned_at: i64) -> (r: FolderRecord)
    ensures
        r.path@ == path_text(f.path.deep_view()),
        r.parent@ == path_text(f.parent.deep_view()),
        r.size_bytes == f.size_bytes as i64,
        r.file_count == f.file_count as i64,
        r.scanned_at == scanned_at,
        r.unreadable == f.unreadable as i64,
{
    FolderRecord {
        path: path_string(&f.path),
        parent: path_string(&f.parent),
        size_bytes: f.size_bytes as i64,
        file_count: f.file_count as i64,
        scanned_at,
        unreadable: f.unreadable as i64,
    }
}

/// Whether the stored path `path` belongs to the tree at `root`: the root
/// itself or a path that starts with `root` and a `/`. Matched character
/// for character, so no other root's rows are touched, whatever characters
/// the root's name holds.
pub open spec fn in_subtree(path: Seq<char>, root: Seq<char>) -> bool {
    path == root || (root + "/"@).is_prefix_of(path)
}

/// Deletes the rows of one tree: `?1` is the root, `?2` its
/// [`subtree_prefix`]. The prefix is compared as text with `substr`, never
/// as a `LIKE` pattern, so it selects exactly the rows [`in_subtree`]
/// describes: no wildcard in a name and no case-folding widens it.
pub const SUBTREE_DELETE_SQL: &'static str =
    "DELETE FROM folder_sizes WHERE path = ?1 OR substr(path, 1, length(?2)) = ?2";

/// What every path strictly beneath `root` starts with.
pub fn subtree_prefix(root: &str) -> (r: String)
    ensures
        r@ == root@ + "/"@,
        forall|path: Seq<char>| #[trigger] in_subtree(path, root@) <==> path == root@ || r@.is_prefix_of(path),
{
    let mut r = String::new();
    push_str(&mut r, root);
    push_str(&mut r, "/");
    r
}

/// The stored time of the last full scan, when it is a number.
pub fn parse_last_full_scan(stored: Option<&str>) -> (r: Option<i64>)
    ensures
        r == match stored {
            Some(v) => parse_i64_spec(v@),
            None => None,
        },
{
    match stored {
        Some(v) => parse_i64_str(v),
        None => None,
    }
}

} // verus!
