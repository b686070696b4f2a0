//! Pulling the `entries.json` member out of Apple's `resources*.tar` bundle.
use std::io::Read;

use vstd::prelude::*;
use vstd::string::StringSliceAdditionalSpecFns;

use crate::manifest::ManifestError;

verus! {

/// Name of the catalog member inside the resource tar. It is matched by file
/// name anywhere in the archive.
pub const ENTRIES_MEMBER_NAME: &'static str = "entries.json";

/// Ceiling on how much of the `entries.json` member is read.
pub const MAX_ENTRIES_JSON_BYTES: u64 = 16 * 1024 * 1024;

/// The path separator byte.
pub const SLASH: u8 = 0x2f;

/// The byte of a `.` path segment.
pub const DOT: u8 = 0x2e;

/// What the `tar` crate reports for member `index` of the archive `archive`:
/// `None` past the last member, `Some(None)` when reading the archive failed
/// at or before that member, `Some(Some(path))` with the member's raw path.
pub uninterp spec fn tar_member_path_of(archive: Seq<u8>, index: int) -> Option<Option<Seq<u8>>>;

/// The text of member `index` of the archive, read up to `limit` bytes, or
/// `None` when the member cannot be read or is not valid UTF-8.
pub uninterp spec fn tar_member_text_of(archive: Seq<u8>, index: int, limit: int) -> Option<
    Seq<char>,
>;

/// `tar::Archive::new` over an in-memory cursor, then `entries()` advanced
/// to member `index` (`Iterator::nth`) and that member's
/// `tar::Entry::path_bytes`. The contract names the result and adds one fact
/// the crate's reader shows: every member it yields was preceded by at least
/// one 512-byte header, so member `index` is reported (as a path or an error)
/// only when the archive holds at least `index * 512` bytes.
#[verifier::external_body]
fn tar_member_path(archive: &[u8], index: usize) -> (res: Option<Result<Vec<u8>, std::io::Error>>)
    ensures
        match res {
            None => tar_member_path_of(archive@, index as int) is None,
            Some(Ok(path)) => tar_member_path_of(archive@, index as int) == Some(Some(path@)),
            Some(Err(_)) => tar_member_path_of(archive@, index as int) == Some(
                None::<Seq<u8>>,
            ),
        },
        res is Some ==> index * 512 <= archive@.len(),
{
    let mut reader = tar::Archive::new(std::io::Cursor::new(archive));
    let mut entries = match reader.entries() {
        Ok(entries) => entries,
        Err(err) => return Some(Err(err)),
    };
    match entries.nth(index) {
        Some(Ok(entry)) => Some(Ok(entry.path_bytes().into_owned())),
        Some(Err(err)) => Some(Err(err)),
        None => None,
    }
}

/// `tar::Archive::entries` advanced to member `index`, whose data is read
/// through `Read::take(limit)` and `Read::read_to_string`. The contract names
/// the text (see `tar_member_text_of`); an error, including one for a member
/// that does not exist, is reported as `Err`. It also states what `take`
/// documents: at most `limit` bytes are read, so the text (read into an
/// empty string) has at most `limit` characters.
#[verifier::external_body]
fn tar_member_text(archive: &[u8], index: usize, limit: u64) -> (res: Result<
    String,
    std::io::Error,
>)
    ensures
        match res {
            Ok(text) => tar_member_text_of(archive@, index as int, limit as int) == Some(text@),
            Err(_) => tar_member_text_of(archive@, index as int, limit as int) is None,
        },
        res matches Ok(text) ==> text@.len() <= limit,
{
    let mut reader = tar::Archive::new(std::io::Cursor::new(archive));
    let mut entries = reader.entries()?;
    match entries.nth(index) {
        Some(Ok(entry)) => {
            let mut body = String::new();
            entry.take(limit).read_to_string(&mut body)?;
            Ok(body)
        },
        Some(Err(err)) => Err(err),
        None => Err(std::io::ErrorKind::UnexpectedEof.into()),
    }
}

/// Index just past the last separator before `end`, or 0 when there is none.
pub open spec fn segment_start(path: Seq<u8>, end: int) -> int
    decreases end,
{
    if end <= 0 {
        0
    } else if path[end - 1] == SLASH {
        end
    } else {
        segment_start(path, end - 1)
    }
}

/// A segment starts no later than it ends.
pub proof fn lemma_segment_start_bounds(path: Seq<u8>, end: int)
    requires
        0 <= end,
    ensures
        0 <= segment_start(path, end) <= end,
    decreases end,
{
    if end > 0 && path[end - 1] != SLASH {
        lemma_segment_start_bounds(path, end - 1);
    }
}

/// Bounds of the final segment of `path[..end]`, once trailing separators
/// and `.` segments are dropped; `None` when nothing is left (the path is
/// empty, the root, or `.`). This is `Path::file_name` on Unix for every path
/// whose final segment is not `..`.
pub open spec fn final_segment(path: Seq<u8>, end: int) -> Option<(int, int)>
    decreases end,
{
    if end <= 0 {
        None
    } else if path[end - 1] == SLASH {
        final_segment(path, end - 1)
    } else {
        let start = segment_start(path, end);
        proof {
            lemma_segment_start_bounds(path, end - 1);
        }
        if end - start == 1 && path[start] == DOT {
            if start == 0 {
                None
            } else {
                final_segment(path, start)
            }
        } else {
            Some((start, end))
        }
    }
}

/// The bytes of [`ENTRIES_MEMBER_NAME`].
pub open spec fn entries_name_bytes() -> Seq<u8> {
    ENTRIES_MEMBER_NAME.spec_bytes()
}

/// True when a member path names the catalog: its file name is
/// [`ENTRIES_MEMBER_NAME`], in whatever directory.
pub open spec fn names_entries_member(path: Seq<u8>) -> bool {
    match final_segment(path, path.len() as int) {
        Some((start, end)) => path.subrange(start, end) == entries_name_bytes(),
        None => false,
    }
}

/// Where the search for the catalog member ends up.
pub ghost enum EntriesSearch {
    /// The first member named `entries.json` has this index.
    Found(nat),
    /// Reading the archive failed before such a member turned up.
    Failed,
    /// The archive ended without such a member.
    Missing,
}

/// The search for the catalog member, starting at member `from`.
pub open spec fn entries_search(archive: Seq<u8>, from: nat) -> EntriesSearch
    decreases archive.len() + 1 - from,
{
    if from > archive.len() {
        EntriesSearch::Missing
    } else {
        match tar_member_path_of(archive, from as int) {
            None => EntriesSearch::Missing,
            Some(None) => EntriesSearch::Failed,
            Some(Some(path)) => if names_entries_member(path) {
                EntriesSearch::Found(from)
            } else {
                entries_search(archive, from + 1)
            },
        }
    }
}

/// What [`extract_entries_json`] gives for an archive.
pub open spec fn extract_entries_json_ok(archive: Seq<u8>, res: Result<String, ManifestError>) -> bool {
    match entries_search(archive, 0) {
        EntriesSearch::Found(k) => match tar_member_text_of(
            archive,
            k as int,
            MAX_ENTRIES_JSON_BYTES as int,
        ) {
            Some(text) => res matches Ok(s) && s@ == text,
            None => res matches Err(ManifestError::Tar(_)),
        },
        EntriesSearch::Failed => res matches Err(ManifestError::Tar(_)),
        EntriesSearch::Missing => res matches Err(ManifestError::MissingEntries),
    }
}

/// Index just past the last separator before `end`.
fn find_segment_start(path: &[u8], end: usize) -> (res: usize)
    requires
        end <= path@.len(),
    ensures
        res == segment_start(path@, end as int),
        res <= end,
{
    let mut j = end;
    while j > 0 && path[j - 1] != SLASH
        invariant
            j <= end <= path@.len(),
            segment_start(path@, j as int) == segment_start(path@, end as int),
        decreases j,
    {
        j = j - 1;
    }
    j
}

/// Bounds of the final segment of `path` (see [`final_segment`]).
fn find_final_segment(path: &[u8]) -> (res: Option<(usize, usize)>)
    ensures
        match res {
            Some((s, e)) => final_segment(path@, path@.len() as int) == Some((s as int, e as int))
                && s <= e <= path@.len(),
            None => final_segment(path@, path@.len() as int) is None,
        },
{
    let mut end = path.len();
    loop
        invariant
            end <= path@.len(),
            final_segment(path@, end as int) == final_segment(path@, path@.len() as int),
        decreases end,
    {
        if end == 0 {
            return None;
        }
        if path[end - 1] == SLASH {
            end = end - 1;
        } else {
            let start = find_segment_start(path, end);
            proof {
                lemma_segment_start_bounds(path@, end - 1);
            }
            if end - start == 1 && path[start] == DOT {
                if start == 0 {
                    return None;
                }
                end = start;
            } else {
                return Some((start, end));
            }
        }
    }
}

/// True when a member path names the catalog (see [`names_entries_member`]).
pub fn is_entries_member(path: &[u8]) -> (res: bool)
    ensures
        res == names_entries_member(path@),
{
    let name = ENTRIES_MEMBER_NAME.as_bytes();
    match find_final_segment(path) {
        None => false,
        Some((start, end)) => {
            if end - start != name.len() {
                assert(path@.subrange(start as int, end as int).len() != name@.len());
                return false;
            }
            let mut i: usize = 0;
            while i < name.len()
                invariant
                    start <= end <= path@.len(),
                    end - start == name@.len(),
                    name@ == entries_name_bytes(),
                    final_segment(path@, path@.len() as int) == Some((start as int, end as int)),
                    i <= name@.len(),
                    forall|j: int| 0 <= j < i ==> path@[start + j] == name@[j],
                decreases name@.len() - i,
            {
                if path[start + i] != name[i] {
                    assert(path@.subrange(start as int, end as int)[i as int] != name@[i as int]);
                    return false;
                }
                i = i + 1;
            }
            assert(path@.subrange(start as int, end as int) =~= name@);
            true
        },
    }
}

/// Pulls the `entries.json` member out of a `resources*.tar` bundle: the text
/// of the first member whose file name is `entries.json`, read up to
/// [`MAX_ENTRIES_JSON_BYTES`] (so the text has at most that many
/// characters). Other members are ignored.
pub fn extract_entries_json(tar_bytes: &[u8]) -> (res: Result<String, ManifestError>)
    ensures
        extract_entries_json_ok(tar_bytes@, res),
        res matches Ok(text) ==> text@.len() <= MAX_ENTRIES_JSON_BYTES,
{
    let n = tar_bytes.len();
    let mut i: usize = 0;
    loop
        invariant
            n == tar_bytes@.len(),
            i == 0 || (i - 1) * 512 <= tar_bytes@.len(),
            entries_search(tar_bytes@, 0) == entries_search(tar_bytes@, i as nat),
        decreases tar_bytes@.len() + 1 - i,
    {
        match tar_member_path(tar_bytes, i) {
            None => {
                return Err(ManifestError::MissingEntries);
            },
            Some(Err(err)) => {
                return Err(ManifestError::Tar(err));
            },
            Some(Ok(path)) => {
                if is_entries_member(path.as_slice()) {
                    return match tar_member_text(tar_bytes, i, MAX_ENTRIES_JSON_BYTES) {
                        Ok(text) => Ok(text),
                        Err(err) => Err(ManifestError::Tar(err)),
                    };
                }
                i = i + 1;
            },
        }
    }
}

} // verus!
