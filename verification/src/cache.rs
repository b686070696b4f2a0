//! Bookkeeping of the on-disk video cache: which ids are cached where, the
//! least-recently-played eviction order, and the window that limits how
//! often something new may be downloaded.
//!
//! The files themselves are read, written and deleted by the caller; this
//! module decides what to do and keeps the index.
use vstd::prelude::*;
use vstd::string::StrSliceExecFns;
use vstd::string::StringExecFns;

use crate::assoc::{
    lemma_map_of, lemma_map_of_push, lemma_map_of_remove, lemma_map_of_update, map_of, unique_keys,
};
use crate::text::{str_equals, to_owned_string};

verus! {

/// Why a cache request could not be served.
#[derive(Debug)]
pub enum CacheError {
    /// The id could not safely become a file name.
    InvalidId,
    /// The HTTP request failed.
    Request(reqwest::Error),
    /// Reading or writing the cache directory failed.
    Io(std::io::Error),
}

/// Result of asking the cache to ensure a video is available locally.
#[derive(Debug, PartialEq, Eq)]
pub enum EnsureOutcome {
    /// Already on disk, here is the path.
    Cached(String),
    /// Was not cached; has now been downloaded to this path.
    Downloaded { path: String, evicted_ids: Vec<String> },
}

impl EnsureOutcome {
    /// Where the file is, either way.
    pub fn path(&self) -> (res: &str)
        ensures
            res@ == match self {
                EnsureOutcome::Cached(p) => p@,
                EnsureOutcome::Downloaded { path, .. } => path@,
            },
    {
        match self {
            EnsureOutcome::Cached(path) => path.as_str(),
            EnsureOutcome::Downloaded { path, .. } => path.as_str(),
        }
    }

    /// The ids LRU eviction removed to make room; none for a cache hit.
    pub fn evicted_ids(&self) -> (res: &[String])
        ensures
            res@ == match self {
                EnsureOutcome::Cached(_) => Seq::<String>::empty(),
                EnsureOutcome::Downloaded { evicted_ids, .. } => evicted_ids@,
            },
    {
        match self {
            EnsureOutcome::Cached(_) => &[],
            EnsureOutcome::Downloaded { evicted_ids, .. } => evicted_ids.as_slice(),
        }
    }

    /// True for a genuine download, false for a cache hit.
    pub fn is_download(&self) -> (res: bool)
        ensures
            res == (self is Downloaded),
    {
        match self {
            EnsureOutcome::Cached(_) => false,
            EnsureOutcome::Downloaded { .. } => true,
        }
    }
}

// ---------------------------------------------------------------------------
// The clock
// ---------------------------------------------------------------------------

/// `SystemTime::elapsed` on `UNIX_EPOCH`: how far the wall clock is past the
/// epoch, or `None` when it reads earlier. Nothing is promised of the value.
#[verifier::external_body]
fn epoch_elapsed() -> Option<core::time::Duration> {
    std::time::UNIX_EPOCH.elapsed().ok()
}

/// `Duration::as_nanos`. Nothing is promised of the value.
#[verifier::external_body]
fn duration_nanos(d: &core::time::Duration) -> u128 {
    d.as_nanos()
}

/// The timestamp for a clock reading of `nanos` nanoseconds past the epoch:
/// the reading truncated to 64 bits, or 0 when the clock reads earlier than
/// the epoch (`None`).
pub open spec fn nanos_from_reading_spec(reading: Option<u128>) -> u64 {
    match reading {
        Some(n) => n as u64,
        None => 0,
    }
}

/// The timestamp for a clock reading (see [`nanos_from_reading_spec`]).
pub fn nanos_from_reading(reading: Option<u128>) -> (res: u64)
    ensures
        res == nanos_from_reading_spec(reading),
{
    match reading {
        Some(n) => {
            #[verifier::truncate]
            (n as u64)
        },
        None => 0,
    }
}

/// Nanoseconds since the epoch (truncated to 64 bits; 0 when the clock reads
/// earlier than the epoch), used as the ordering key for LRU eviction and as
/// the download window's clock. The reading itself is the wall clock's.
pub fn now_ts() -> (res: u64)
    ensures
        exists|reading: Option<u128>| res == nanos_from_reading_spec(reading),
{
    let reading = match epoch_elapsed() {
        Some(d) => Some(duration_nanos(&d)),
        None => None,
    };
    nanos_from_reading(reading)
}

// ---------------------------------------------------------------------------
// The index
// ---------------------------------------------------------------------------

/// What is known of one cached file.
struct Entry {
    path: String,
    size: u64,
    last_played: u64,
}

/// The view of one cached file.
pub ghost struct EntryView {
    pub path: Seq<char>,
    pub size: u64,
    pub last_played: u64,
}

/// The view of a cache: its directory and file extension, its byte budget,
/// the download window, and the cached files as (id, file) pairs.
pub ghost struct CacheView {
    pub dir: Seq<char>,
    pub extension: Seq<char>,
    pub max_bytes: u64,
    pub download_window: u64,
    pub entries: Seq<(Seq<char>, EntryView)>,
}

/// The index after `id` is played at `now`: a cached id gets `now` as its
/// "last played" time; an id that is not cached changes nothing.
pub open spec fn played_at(index: Map<Seq<char>, EntryView>, id: Seq<char>, now: u64) -> Map<
    Seq<char>,
    EntryView,
> {
    if index.contains_key(id) {
        index.insert(id, EntryView { last_played: now, ..index[id] })
    } else {
        index
    }
}

/// A file downloaded to `path`, `size` bytes long, played at `now`.
pub open spec fn recorded_file(path: Seq<char>, size: u64, now: u64) -> EntryView {
    EntryView { path, size, last_played: now }
}

/// The total size of the cached files, in bytes.
pub open spec fn total_size(entries: Seq<(Seq<char>, EntryView)>) -> int
    decreases entries.len(),
{
    if entries.len() == 0 {
        0
    } else {
        total_size(entries.drop_last()) + entries.last().1.size
    }
}

/// A successful claim on the download window: the window value before it
/// and the clock reading it moved the window to.
#[derive(Debug, Clone, Copy, PartialEq, Eq)]
pub struct DownloadClaim {
    pub previous: u64,
    pub claimed_at: u64,
}

/// Core download/cache/eviction bookkeeping for one cache directory.
pub struct CacheState {
    dir: String,
    /// File extension for cached files, without the dot. The same machinery
    /// backs the video cache (`mov`) and the thumbnail cache (`png`).
    extension: String,
    max_bytes: u64,
    /// When a download last claimed the window, in [`now_ts`] units; zero
    /// means "never", so the first download into a fresh cache is allowed.
    download_window: u64,
    entries: Vec<(String, Entry)>,
}

/// Extension used by the video cache, and the default for [`CacheState`].
pub const VIDEO_EXTENSION: &'static str = "mov";

/// The view of a list of (id, file) pairs.
spec fn entries_view(entries: Seq<(String, Entry)>) -> Seq<(Seq<char>, EntryView)> {
    entries.map_values(
        |p: (String, Entry)|
            (p.0@, EntryView { path: p.1.path@, size: p.1.size, last_played: p.1.last_played }),
    )
}

impl View for CacheState {
    type V = CacheView;

    closed spec fn view(&self) -> CacheView {
        CacheView {
            dir: self.dir@,
            extension: self.extension@,
            max_bytes: self.max_bytes,
            download_window: self.download_window,
            entries: entries_view(self.entries@),
        }
    }
}

/// True when `id` can name a cached file: not empty, not `.` or `..`, and
/// without a `/` or `\` that would make it a path.
pub open spec fn valid_cache_id(id: Seq<char>) -> bool {
    &&& id.len() > 0
    &&& !id.contains('/')
    &&& !id.contains('\\')
    &&& id != seq!['.']
    &&& id != seq!['.', '.']
}

/// `dir` joined with a relative `name` (`Path::join`): a separator is added
/// unless `dir` is empty or already ends with one.
pub open spec fn join_path(dir: Seq<char>, name: Seq<char>) -> Seq<char> {
    if dir.len() > 0 && dir.last() != '/' {
        dir + seq!['/'] + name
    } else {
        dir + name
    }
}

/// The file name of a cached id: `<id>.<extension>`.
pub open spec fn cache_file_name(id: Seq<char>, extension: Seq<char>) -> Seq<char> {
    id + seq!['.'] + extension
}

/// True when `id` is valid (see [`valid_cache_id`]).
fn is_valid_cache_id(id: &str) -> (res: bool)
    ensures
        res == valid_cache_id(id@),
{
    if id.is_empty() {
        return false;
    }
    proof {
        reveal_strlit(".");
        reveal_strlit("..");
        assert("."@ =~= seq!['.']);
        assert(".."@ =~= seq!['.', '.']);
    }
    if str_equals(id, ".") || str_equals(id, "..") {
        return false;
    }
    let n = id.unicode_len();
    for i in 0..n
        invariant
            n == id@.len(),
            forall|j: int| 0 <= j < i ==> id@[j] != '/' && id@[j] != '\\',
    {
        let c = id.get_char(i);
        if c == '/' || c == '\\' {
            assert(id@.contains(c));
            return false;
        }
    }
    assert(!id@.contains('/'));
    assert(!id@.contains('\\'));
    true
}

/// `dir` joined with `name` (see [`join_path`]).
fn join(dir: &str, name: &str) -> (res: String)
    ensures
        res@ == join_path(dir@, name@),
{
    let mut out = to_owned_string(dir);
    let n = dir.unicode_len();
    if n > 0 && dir.get_char(n - 1) != '/' {
        out.append("/");
        proof {
            reveal_strlit("/");
        }
    }
    out.append(name);
    out
}

impl CacheState {
    /// Well-formed: no id is cached twice.
    pub open spec fn wf(&self) -> bool {
        unique_keys(self@.entries)
    }

    /// An empty video cache in `dir` with a budget of `max_bytes`.
    pub fn new(dir: String, max_bytes: u64) -> (res: Self)
        ensures
            res.wf(),
            res@.dir == dir@,
            res@.extension == VIDEO_EXTENSION@,
            res@.max_bytes == max_bytes,
            res@.download_window == 0,
            res@.entries.len() == 0,
    {
        Self::with_extension(dir, max_bytes, to_owned_string(VIDEO_EXTENSION))
    }

    /// Same cache, for files that aren't videos: cached files are named
    /// `<id>.<extension>`.
    pub fn with_extension(dir: String, max_bytes: u64, extension: String) -> (res: Self)
        ensures
            res.wf(),
            res@.dir == dir@,
            res@.extension == extension@,
            res@.max_bytes == max_bytes,
            res@.download_window == 0,
            res@.entries.len() == 0,
    {
        let res = CacheState {
            dir,
            extension,
            max_bytes,
            download_window: 0,
            entries: Vec::new(),
        };
        assert(res@.entries =~= Seq::empty());
        res
    }

    /// The cache directory.
    pub fn dir(&self) -> (res: &str)
        ensures
            res@ == self@.dir,
    {
        self.dir.as_str()
    }

    /// The file name `id` is cached under, or `InvalidId` when `id` could
    /// escape the cache directory or name it (see [`valid_cache_id`]).
    pub fn file_name_for(&self, id: &str) -> (res: Result<String, CacheError>)
        ensures
            valid_cache_id(id@) ==> (res matches Ok(name) && name@ == cache_file_name(
                id@,
                self@.extension,
            )),
            !valid_cache_id(id@) ==> (res matches Err(CacheError::InvalidId)),
    {
        if !is_valid_cache_id(id) {
            return Err(CacheError::InvalidId);
        }
        let mut name = to_owned_string(id);
        name.append(".");
        name.append(self.extension.as_str());
        proof {
            reveal_strlit(".");
        }
        Ok(name)
    }

    /// Where a download of `id` is written first (`<dir>/<id>.part`) and
    /// where it is moved when complete (`<dir>/<id>.<extension>`).
    pub fn download_paths(&self, id: &str) -> (res: Result<(String, String), CacheError>)
        ensures
            valid_cache_id(id@) ==> (res matches Ok((final_path, tmp_path)) && final_path@
                == join_path(self@.dir, cache_file_name(id@, self@.extension)) && tmp_path@
                == join_path(self@.dir, id@ + "part"@.insert(0, '.'))),
            !valid_cache_id(id@) ==> (res matches Err(CacheError::InvalidId)),
    {
        let name = match self.file_name_for(id) {
            Ok(name) => name,
            Err(err) => return Err(err),
        };
        let final_path = join(self.dir.as_str(), name.as_str());
        let mut part = to_owned_string(id);
        part.append(".part");
        proof {
            reveal_strlit(".part");
            reveal_strlit("part");
            assert(".part"@ =~= "part"@.insert(0, '.'));
        }
        let tmp_path = join(self.dir.as_str(), part.as_str());
        Ok((final_path, tmp_path))
    }

    /// Changes the byte budget.
    pub fn set_max_bytes(&mut self, max_bytes: u64)
        ensures
            final(self)@ == (CacheView { max_bytes, ..old(self)@ }),
    {
        self.max_bytes = max_bytes;
    }

    // -----------------------------------------------------------------------
    // The download window
    // -----------------------------------------------------------------------

    /// The window value when it was last claimed.
    pub fn download_window(&self) -> (res: u64)
        ensures
            res == self@.download_window,
    {
        self.download_window
    }

    /// Claims the right to download something new at clock reading `now`,
    /// if at least `interval_ns` has passed since the last claim (always,
    /// when `interval_ns` is 0 or nothing was ever claimed). On success the
    /// window moves to `now`, and the claim returned records the window
    /// value before it, for [`Self::restore_download_slot`].
    pub fn claim_download_slot_at(&mut self, now: u64, interval_ns: u64) -> (res: Option<
        DownloadClaim,
    >)
        ensures
            claim_outcome(old(self)@, final(self)@, now, interval_ns, res),
    {
        let previous = self.download_window;
        if interval_ns > 0 && previous > 0 && now.saturating_sub(previous) < interval_ns {
            return None;
        }
        self.download_window = now;
        Some(DownloadClaim { previous, claimed_at: now })
    }

    /// [`Self::claim_download_slot_at`] at the current clock reading.
    pub fn claim_download_slot(&mut self, interval_ns: u64) -> (res: Option<DownloadClaim>)
        ensures
            exists|now: u64| claim_outcome(old(self)@, final(self)@, now, interval_ns, res),
            res matches Some(claim) ==> claim.previous == old(self)@.download_window
                && final(self)@ == (CacheView { download_window: claim.claimed_at, ..old(self)@ }),
            (interval_ns == 0 || old(self)@.download_window == 0) ==> res is Some,
            res is None ==> final(self)@ == old(self)@,
    {
        let now = now_ts();
        self.claim_download_slot_at(now, interval_ns)
    }

    /// Hands a claim back after a failed download, so a dead URL doesn't
    /// cost the whole window: the window returns to where it was before the
    /// claim, unless another claim has moved it since.
    pub fn restore_download_slot(&mut self, claim: DownloadClaim)
        ensures
            final(self)@ == restored(old(self)@, claim),
    {
        if self.download_window == claim.claimed_at {
            self.download_window = claim.previous;
        }
    }

    /// Nanoseconds until a new download is allowed at clock reading `now`;
    /// 0 when one is allowed now.
    pub fn download_allowed_in_at(&self, now: u64, interval_ns: u64) -> (res: u64)
        ensures
            res == allowed_in_spec(self@.download_window, now, interval_ns),
    {
        let window = self.download_window;
        if interval_ns == 0 || window == 0 {
            return 0;
        }
        interval_ns.saturating_sub(now.saturating_sub(window))
    }

    /// [`Self::download_allowed_in_at`] at the current clock reading.
    pub fn download_allowed_in(&self, interval_ns: u64) -> (res: u64)
        ensures
            exists|now: u64| res == allowed_in_spec(self@.download_window, now, interval_ns),
            (interval_ns == 0 || self@.download_window == 0) ==> res == 0,
            res <= interval_ns,
    {
        let now = now_ts();
        self.download_allowed_in_at(now, interval_ns)
    }

    /// Settles, at clock reading `now`, a claim a download attempt took: a
    /// genuine download keeps the window closed, while a cache hit (which
    /// costs nothing) or a failure (a dead URL) hands the claim back.
    /// Returns whether another download is allowed at `now`. See
    /// [`claim_settled`].
    pub fn finish_claim_at(
        &mut self,
        now: u64,
        claim: DownloadClaim,
        downloaded: bool,
        interval_ns: u64,
    ) -> (allowed: bool)
        ensures
            claim_settled(old(self)@, final(self)@, now, claim, downloaded, interval_ns, allowed),
    {
        if !downloaded {
            self.restore_download_slot(claim);
        }
        self.download_allowed_in_at(now, interval_ns) == 0
    }

    /// [`Self::finish_claim_at`] at the current clock reading.
    pub fn finish_claim(&mut self, claim: DownloadClaim, downloaded: bool, interval_ns: u64) -> (allowed: bool)
        ensures
            exists|now: u64|
                claim_settled(old(self)@, final(self)@, now, claim, downloaded, interval_ns, allowed),
            final(self)@ == if downloaded {
                old(self)@
            } else {
                restored(old(self)@, claim)
            },
    {
        let now = now_ts();
        self.finish_claim_at(now, claim, downloaded, interval_ns)
    }

    /// Moves the window forward to `newest` (never back), e.g. to the
    /// newest file found on disk.
    pub fn advance_download_window(&mut self, newest: u64)
        ensures
            final(self)@.download_window >= old(self)@.download_window,
            final(self)@.download_window >= newest,
            final(self)@ == (CacheView {
                download_window: if newest > old(self)@.download_window {
                    newest
                } else {
                    old(self)@.download_window
                },
                ..old(self)@
            }),
    {
        if newest > self.download_window {
            self.download_window = newest;
        }
    }
}

/// `now` minus `since`, or 0 when the clock reads earlier.
pub open spec fn elapsed_since(since: u64, now: u64) -> int {
    if now >= since {
        now - since
    } else {
        0
    }
}

/// Whether a claim at `now` succeeds against the window value `window`.
pub open spec fn claim_allowed(window: u64, now: u64, interval_ns: u64) -> bool {
    interval_ns == 0 || window == 0 || elapsed_since(window, now) >= interval_ns
}

/// What a claim at `now` does: when allowed, it moves the window to `now`
/// and returns a claim recording the old window value and `now`; otherwise
/// it returns `None` and changes nothing.
pub open spec fn claim_outcome(
    before: CacheView,
    after: CacheView,
    now: u64,
    interval_ns: u64,
    res: Option<DownloadClaim>,
) -> bool {
    if claim_allowed(before.download_window, now, interval_ns) {
        res == Some(DownloadClaim { previous: before.download_window, claimed_at: now }) && after
            == (CacheView { download_window: now, ..before })
    } else {
        res is None && after == before
    }
}

/// The cache after `claim` is handed back: while the window still holds
/// this claim, it returns to where it was before; once another claim has
/// moved it, nothing changes.
pub open spec fn restored(before: CacheView, claim: DownloadClaim) -> CacheView {
    if before.download_window == claim.claimed_at {
        CacheView { download_window: claim.previous, ..before }
    } else {
        before
    }
}

/// How settling `claim` at `now` leaves the cache (`before` becomes
/// `after`): a genuine download leaves it unchanged; otherwise the claim is
/// handed back (see [`restored`]). `allowed` says whether a download is then
/// allowed at `now`.
pub open spec fn claim_settled(
    before: CacheView,
    after: CacheView,
    now: u64,
    claim: DownloadClaim,
    downloaded: bool,
    interval_ns: u64,
    allowed: bool,
) -> bool {
    &&& after == if downloaded {
        before
    } else {
        restored(before, claim)
    }
    &&& allowed == (allowed_in_spec(after.download_window, now, interval_ns) == 0)
}

/// Nanoseconds until a new download is allowed at `now`.
pub open spec fn allowed_in_spec(window: u64, now: u64, interval_ns: u64) -> int {
    if interval_ns == 0 || window == 0 || elapsed_since(window, now) >= interval_ns {
        0
    } else {
        interval_ns - elapsed_since(window, now)
    }
}

} // verus!

verus! {

// ---------------------------------------------------------------------------
// Facts about the index
// ---------------------------------------------------------------------------

/// Removing the pair at `m` removes its size from the total.
pub proof fn lemma_total_remove(entries: Seq<(Seq<char>, EntryView)>, m: int)
    requires
        0 <= m < entries.len(),
    ensures
        total_size(entries.remove(m)) == total_size(entries) - entries[m].1.size,
    decreases entries.len(),
{
    if m < entries.len() - 1 {
        lemma_total_remove(entries.drop_last(), m);
        assert(entries.remove(m).drop_last() =~= entries.drop_last().remove(m));
    } else {
        assert(entries.remove(m) =~= entries.drop_last());
    }
}

/// Replacing the file of the pair at `m` swaps its size in the total.
pub proof fn lemma_total_update(entries: Seq<(Seq<char>, EntryView)>, m: int, e: EntryView)
    requires
        0 <= m < entries.len(),
    ensures
        total_size(entries.update(m, (entries[m].0, e))) == total_size(entries) - entries[m].1.size
            + e.size,
    decreases entries.len(),
{
    if m < entries.len() - 1 {
        lemma_total_update(entries.drop_last(), m, e);
        assert(entries.update(m, (entries[m].0, e)).drop_last() =~= entries.drop_last().update(
            m,
            (entries[m].0, e),
        ));
    } else {
        assert(entries.update(m, (entries[m].0, e)).drop_last() =~= entries.drop_last());
    }
}

/// The total is between 0 and `len * u64::MAX`.
pub proof fn lemma_total_bounds(entries: Seq<(Seq<char>, EntryView)>)
    ensures
        0 <= total_size(entries) <= entries.len() * (u64::MAX as int),
    decreases entries.len(),
{
    if entries.len() > 0 {
        lemma_total_bounds(entries.drop_last());
    }
}

/// The view of the pairs after the pair at `i` is replaced.
proof fn lemma_entries_view_update(entries: Seq<(String, Entry)>, i: int, p: (String, Entry))
    requires
        0 <= i < entries.len(),
    ensures
        entries_view(entries.update(i, p)) == entries_view(entries).update(
            i,
            (p.0@, EntryView { path: p.1.path@, size: p.1.size, last_played: p.1.last_played }),
        ),
{
    assert(entries_view(entries.update(i, p)) =~= entries_view(entries).update(
        i,
        (p.0@, EntryView { path: p.1.path@, size: p.1.size, last_played: p.1.last_played }),
    ));
}

} // verus!

verus! {

/// One file found in the cache directory, as read from disk.
#[derive(Debug)]
pub struct DiskFile {
    /// The full path.
    pub path: String,
    /// The final path component, when it is valid UTF-8.
    pub file_name: Option<String>,
    /// Its length in bytes.
    pub size: u64,
    /// Its modification time in nanoseconds since the epoch, when known.
    pub modified_nanos: Option<u128>,
}

/// Index of the last `.` in `name`, or -1.
pub open spec fn last_dot(name: Seq<char>) -> int
    decreases name.len(),
{
    if name.len() == 0 {
        -1
    } else if name.last() == '.' {
        name.len() - 1
    } else {
        last_dot(name.drop_last())
    }
}

/// `Path::file_stem` and `Path::extension` of a file name: split at the last
/// `.`, unless that dot is the first character (or the name is `..`), in
/// which case the whole name is the stem and there is no extension.
pub open spec fn stem_and_extension(name: Seq<char>) -> (Seq<char>, Option<Seq<char>>) {
    let d = last_dot(name);
    if d <= 0 || name == seq!['.', '.'] {
        (name, None)
    } else {
        (name.subrange(0, d), Some(name.subrange(d + 1, name.len() as int)))
    }
}

/// The modification time a disk file is indexed with: its own (truncated to
/// 64 bits) when known, otherwise `now`.
pub open spec fn listed_time(f: DiskFile, now: u64) -> u64 {
    match f.modified_nanos {
        Some(n) => n as u64,
        None => now,
    }
}

/// The (id, file) pair a disk file is indexed as, or `None` when it has no
/// UTF-8 file name or the wrong extension.
pub open spec fn disk_listing(f: DiskFile, extension: Seq<char>, now: u64) -> Option<
    (Seq<char>, EntryView),
> {
    match f.file_name {
        None => None,
        Some(name) => {
            let (stem, ext) = stem_and_extension(name@);
            if ext == Some(extension) {
                Some(
                    (
                        stem,
                        EntryView { path: f.path@, size: f.size, last_played: listed_time(f, now) },
                    ),
                )
            } else {
                None
            }
        },
    }
}

/// The index after the files of `files` are added in order.
pub open spec fn index_after_scan(
    index: Map<Seq<char>, EntryView>,
    files: Seq<DiskFile>,
    extension: Seq<char>,
    now: u64,
) -> Map<Seq<char>, EntryView>
    decreases files.len(),
{
    if files.len() == 0 {
        index
    } else {
        let before = index_after_scan(index, files.drop_last(), extension, now);
        match disk_listing(files.last(), extension, now) {
            Some((id, e)) => before.insert(id, e),
            None => before,
        }
    }
}

/// The newest modification time among the files that get indexed; 0 when
/// there are none.
pub open spec fn newest_listed(files: Seq<DiskFile>, extension: Seq<char>, now: u64) -> u64
    decreases files.len(),
{
    if files.len() == 0 {
        0
    } else {
        let before = newest_listed(files.drop_last(), extension, now);
        match disk_listing(files.last(), extension, now) {
            Some((_, e)) => if e.last_played > before {
                e.last_played
            } else {
                before
            },
            None => before,
        }
    }
}

/// Splits a file name into stem and extension (see [`stem_and_extension`]).
fn split_file_name(name: &str) -> (res: (String, Option<String>))
    ensures
        res.0@ == stem_and_extension(name@).0,
        match res.1 {
            Some(e) => stem_and_extension(name@).1 == Some(e@),
            None => stem_and_extension(name@).1 is None,
        },
{
    let n = name.unicode_len();
    let mut d = n;
    assert(name@.take(n as int) =~= name@);
    while d > 0 && name.get_char(d - 1) != '.'
        invariant
            d <= n == name@.len(),
            last_dot(name@.take(d as int)) == last_dot(name@),
        decreases d,
    {
        assert(name@.take(d - 1) =~= name@.take(d as int).drop_last());
        d = d - 1;
    }
    proof {
        if d > 0 {
            assert(name@.take(d as int).last() == '.');
        } else {
            assert(name@.take(0) =~= Seq::<char>::empty());
        }
        assert(name@.take(n as int) =~= name@);
        reveal_strlit("..");
        assert(".."@ =~= seq!['.', '.']);
    }
    if d <= 1 || str_equals(name, "..") {
        return (to_owned_string(name), None);
    }
    let stem = to_owned_string(name.substring_char(0, d - 1));
    let ext = to_owned_string(name.substring_char(d, n));
    (stem, Some(ext))
}

impl CacheState {
    /// True when a file named `name` in the cache directory is one of this
    /// cache's own files: its extension (see [`stem_and_extension`]) is the
    /// cache's.
    pub fn lists_file_name(&self, name: &str) -> (res: bool)
        ensures
            res == (stem_and_extension(name@).1 == Some(self@.extension)),
    {
        let (_, ext) = split_file_name(name);
        match ext {
            Some(e) => str_equals(e.as_str(), self.extension.as_str()),
            None => false,
        }
    }

    /// Position of `id` among the cached pairs.
    fn find(&self, id: &str) -> (res: Option<usize>)
        ensures
            match res {
                Some(i) => i < self@.entries.len() && self@.entries[i as int].0 == id@,
                None => forall|i: int| 0 <= i < self@.entries.len() ==> self@.entries[i].0 != id@,
            },
    {
        let n = self.entries.len();
        for i in 0..n
            invariant
                n == self@.entries.len(),
                forall|j: int| 0 <= j < i ==> self@.entries[j].0 != id@,
        {
            if str_equals(self.entries[i].0.as_str(), id) {
                return Some(i);
            }
        }
        None
    }

    /// Adds `id` with file `entry`, replacing what was cached under `id`.
    fn upsert(&mut self, id: String, entry: Entry)
        requires
            old(self).wf(),
        ensures
            final(self).wf(),
            map_of(final(self)@.entries) == map_of(old(self)@.entries).insert(
                id@,
                EntryView { path: entry.path@, size: entry.size, last_played: entry.last_played },
            ),
            final(self)@.dir == old(self)@.dir,
            final(self)@.extension == old(self)@.extension,
            final(self)@.max_bytes == old(self)@.max_bytes,
            final(self)@.download_window == old(self)@.download_window,
    {
        let ghost e = EntryView {
            path: entry.path@,
            size: entry.size,
            last_played: entry.last_played,
        };
        let ghost before = self@.entries;
        proof {
            lemma_map_of(before);
        }
        match self.find(id.as_str()) {
            Some(i) => {
                let ghost old_entries = self.entries@;
                let _ = self.entries.remove(i);
                self.entries.insert(i, (id, entry));
                proof {
                    assert(self.entries@ =~= old_entries.update(i as int, self.entries@[i as int]));
                    lemma_entries_view_update(old_entries, i as int, self.entries@[i as int]);
                    lemma_map_of_update(before, i as int, e);
                }
            },
            None => {
                let ghost old_entries = self.entries@;
                self.entries.push((id, entry));
                proof {
                    assert(self@.entries =~= before.push((id@, e)));
                    lemma_map_of_push(before, (id@, e));
                }
            },
        }
    }

    /// The path `id` is cached at, if it is cached.
    pub fn cached_path(&self, id: &str) -> (res: Option<String>)
        requires
            self.wf(),
        ensures
            match res {
                Some(p) => map_of(self@.entries).contains_key(id@) && p@ == map_of(
                    self@.entries,
                )[id@].path,
                None => !map_of(self@.entries).contains_key(id@),
            },
    {
        proof {
            lemma_map_of(self@.entries);
        }
        match self.find(id) {
            Some(i) => Some(self.entries[i].1.path.clone()),
            None => None,
        }
    }

    /// Every cached (id, path) pair.
    pub fn all_cached(&self) -> (res: Vec<(String, String)>)
        ensures
            res@.len() == self@.entries.len(),
            forall|i: int|
                #![trigger res@[i]]
                0 <= i < res@.len() ==> res@[i].0@ == self@.entries[i].0 && res@[i].1@
                    == self@.entries[i].1.path,
    {
        let mut out: Vec<(String, String)> = Vec::new();
        let n = self.entries.len();
        for i in 0..n
            invariant
                n == self@.entries.len(),
                out@.len() == i,
                forall|j: int|
                    #![trigger out@[j]]
                    0 <= j < i ==> out@[j].0@ == self@.entries[j].0 && out@[j].1@
                        == self@.entries[j].1.path,
        {
            out.push((self.entries[i].0.clone(), self.entries[i].1.path.clone()));
        }
        out
    }

    /// Every cached id.
    pub fn cached_ids(&self) -> (res: Vec<String>)
        ensures
            res@.len() == self@.entries.len(),
            forall|i: int| 0 <= i < res@.len() ==> #[trigger] res@[i]@ == self@.entries[i].0,
    {
        let mut out: Vec<String> = Vec::new();
        let n = self.entries.len();
        for i in 0..n
            invariant
                n == self@.entries.len(),
                out@.len() == i,
                forall|j: int| 0 <= j < i ==> #[trigger] out@[j]@ == self@.entries[j].0,
        {
            out.push(self.entries[i].0.clone());
        }
        out
    }

    /// The total size of the cached files, in bytes.
    pub fn total_bytes(&self) -> (res: u128)
        ensures
            res == total_size(self@.entries),
    {
        let mut total: u128 = 0;
        let n = self.entries.len();
        for i in 0..n
            invariant
                n == self@.entries.len(),
                total == total_size(self@.entries.take(i as int)),
        {
            proof {
                assert(self@.entries.take(i + 1).drop_last() =~= self@.entries.take(i as int));
                lemma_total_bounds(self@.entries.take(i as int));
                assert(i * (u64::MAX as int) <= u64::MAX * u64::MAX) by (nonlinear_arith)
                    requires
                        i <= u64::MAX,
                ;
            }
            total = total + self.entries[i].1.size as u128;
        }
        assert(self@.entries.take(n as int) =~= self@.entries);
        total
    }

    /// Updates the "last played" time of `id`, if cached, to `now`.
    pub fn touch_at(&mut self, id: &str, now: u64)
        requires
            old(self).wf(),
        ensures
            final(self).wf(),
            map_of(final(self)@.entries) == played_at(map_of(old(self)@.entries), id@, now),
            !map_of(old(self)@.entries).contains_key(id@) ==> final(self)@ == old(self)@,
            total_size(final(self)@.entries) == total_size(old(self)@.entries),
            final(self)@.dir == old(self)@.dir,
            final(self)@.extension == old(self)@.extension,
            final(self)@.max_bytes == old(self)@.max_bytes,
            final(self)@.download_window == old(self)@.download_window,
    {
        let ghost before = self@.entries;
        proof {
            lemma_map_of(before);
        }
        if let Some(i) = self.find(id) {
            let ghost old_entries = self.entries@;
            let (key, mut entry) = self.entries.remove(i);
            entry.last_played = now;
            let ghost e = EntryView { path: entry.path@, size: entry.size, last_played: now };
            self.entries.insert(i, (key, entry));
            proof {
                assert(self.entries@ =~= old_entries.update(i as int, self.entries@[i as int]));
                lemma_entries_view_update(old_entries, i as int, self.entries@[i as int]);
                lemma_map_of_update(before, i as int, e);
                lemma_total_update(before, i as int, e);
            }
        }
    }

    /// Updates the "last played" time of `id`, if cached, to the clock.
    pub fn touch(&mut self, id: &str)
        requires
            old(self).wf(),
        ensures
            final(self).wf(),
            exists|now: u64|
                map_of(final(self)@.entries) == played_at(map_of(old(self)@.entries), id@, now),
            !map_of(old(self)@.entries).contains_key(id@) ==> final(self)@ == old(self)@,
            map_of(final(self)@.entries).dom() == map_of(old(self)@.entries).dom(),
            forall|k: Seq<char>|
                #[trigger] map_of(old(self)@.entries).contains_key(k) ==> map_of(
                    final(self)@.entries,
                )[k].path == map_of(old(self)@.entries)[k].path && map_of(
                    final(self)@.entries,
                )[k].size == map_of(old(self)@.entries)[k].size,
            total_size(final(self)@.entries) == total_size(old(self)@.entries),
            final(self)@.max_bytes == old(self)@.max_bytes,
            final(self)@.download_window == old(self)@.download_window,
    {
        let now = now_ts();
        self.touch_at(id, now);
        assert(map_of(final(self)@.entries).dom() =~= map_of(old(self)@.entries).dom());
    }

    /// Records a finished download of `id` to `path` (`size` bytes, played
    /// at `now`), replacing whatever was cached under `id`.
    pub fn record_download_at(&mut self, id: String, path: String, size: u64, now: u64)
        requires
            old(self).wf(),
        ensures
            final(self).wf(),
            map_of(final(self)@.entries) == map_of(old(self)@.entries).insert(
                id@,
                recorded_file(path@, size, now),
            ),
            final(self)@.dir == old(self)@.dir,
            final(self)@.extension == old(self)@.extension,
            final(self)@.max_bytes == old(self)@.max_bytes,
            final(self)@.download_window == old(self)@.download_window,
    {
        self.upsert(id, Entry { path, size, last_played: now });
    }

    /// Rebuilds the index from files already in the cache directory (left
    /// over from a previous session): each file named `<id>.<extension>` is
    /// indexed under `id`, played at its modification time (or `now` when
    /// that is unknown). Returns the newest such time, 0 when none.
    pub fn index_existing_at(&mut self, files: Vec<DiskFile>, now: u64) -> (newest: u64)
        requires
            old(self).wf(),
        ensures
            final(self).wf(),
            map_of(final(self)@.entries) == index_after_scan(
                map_of(old(self)@.entries),
                files@,
                old(self)@.extension,
                now,
            ),
            newest == newest_listed(files@, old(self)@.extension, now),
            final(self)@.dir == old(self)@.dir,
            final(self)@.extension == old(self)@.extension,
            final(self)@.max_bytes == old(self)@.max_bytes,
            final(self)@.download_window == old(self)@.download_window,
    {
        let ghost all = files@;
        let ghost start = map_of(self@.entries);
        let mut rest = files;
        let mut newest: u64 = 0;
        let n = rest.len();
        let mut i: usize = 0;
        while i < n
            invariant
                i <= n,
                n == all.len(),
                rest@ == all.subrange(i as int, n as int),
                self.wf(),
                map_of(self@.entries) == index_after_scan(
                    start,
                    all.take(i as int),
                    self@.extension,
                    now,
                ),
                newest == newest_listed(all.take(i as int), self@.extension, now),
                self@.dir == old(self)@.dir,
                self@.extension == old(self)@.extension,
                self@.max_bytes == old(self)@.max_bytes,
                self@.download_window == old(self)@.download_window,
            decreases n - i,
        {
            let file = rest.remove(0);
            assert(file == all[i as int]);
            assert(all.take(i + 1).drop_last() =~= all.take(i as int));
            assert(rest@ =~= all.subrange(i + 1, n as int));
            let DiskFile { path, file_name, size, modified_nanos } = file;
            if let Some(name) = file_name {
                let (stem, ext) = split_file_name(name.as_str());
                if let Some(ext) = ext {
                    if str_equals(ext.as_str(), self.extension.as_str()) {
                        let mtime = match modified_nanos {
                            Some(nanos) => {
                                #[verifier::truncate]
                                (nanos as u64)
                            },
                            None => now,
                        };
                        if mtime > newest {
                            newest = mtime;
                        }
                        self.upsert(stem, Entry { path, size, last_played: mtime });
                    }
                }
            }
            i = i + 1;
        }
        assert(all.take(n as int) =~= all);
        newest
    }

    /// [`Self::index_existing_at`] at the current clock reading.
    pub fn index_existing(&mut self, files: Vec<DiskFile>) -> (newest: u64)
        requires
            old(self).wf(),
        ensures
            final(self).wf(),
            exists|now: u64|
                map_of(final(self)@.entries) == index_after_scan(
                    map_of(old(self)@.entries),
                    files@,
                    old(self)@.extension,
                    now,
                ) && newest == newest_listed(files@, old(self)@.extension, now),
            final(self)@.dir == old(self)@.dir,
            final(self)@.extension == old(self)@.extension,
            final(self)@.max_bytes == old(self)@.max_bytes,
            final(self)@.download_window == old(self)@.download_window,
    {
        let now = now_ts();
        self.index_existing_at(files, now)
    }
}

} // verus!

verus! {

// ---------------------------------------------------------------------------
// Least-recently-played eviction
// ---------------------------------------------------------------------------

/// True when `id` is one of `protected`.
pub open spec fn is_protected(protected: Seq<&str>, id: Seq<char>) -> bool {
    exists|k: int| 0 <= k < protected.len() && #[trigger] protected[k]@ == id
}

/// `index` without the ids of `ids`.
pub open spec fn remove_all(index: Map<Seq<char>, EntryView>, ids: Seq<Seq<char>>) -> Map<
    Seq<char>,
    EntryView,
>
    decreases ids.len(),
{
    if ids.len() == 0 {
        index
    } else {
        remove_all(index, ids.drop_last()).remove(ids.last())
    }
}

/// The total size, according to `index`, of the first `j` ids of `ids`.
pub open spec fn sum_sizes(index: Map<Seq<char>, EntryView>, ids: Seq<Seq<char>>, j: int) -> int
    decreases j,
{
    if j <= 0 {
        0
    } else {
        sum_sizes(index, ids, j - 1) + index[ids[j - 1]].size
    }
}

/// The ids of evicted (id, path) pairs.
pub open spec fn victim_ids(victims: Seq<(String, String)>) -> Seq<Seq<char>> {
    victims.map_values(|p: (String, String)| p.0@)
}

/// What least-recently-played eviction does to a cache whose index was
/// `before`, given the ids in `protected`, when it evicts `victims` (in
/// order, with their paths) and leaves the cache as `after`:
/// - victims are distinct, were cached, are not protected, and carry their
///   cached path;
/// - the index loses exactly the victims and the total loses their sizes;
/// - each victim was evicted while the cache was still over its budget;
/// - eviction stopped at the budget, or when only protected files remain;
/// - victims go in order of "last played", and none was played later than a
///   file that stays (unless that file is protected).
pub open spec fn lru_eviction(
    before: CacheView,
    protected: Seq<&str>,
    victims: Seq<(String, String)>,
    after: CacheView,
) -> bool {
    let index = map_of(before.entries);
    let ids = victim_ids(victims);
    let kept = map_of(after.entries);
    &&& ids.no_duplicates()
    &&& forall|k: int|
        #![trigger ids[k]]
        0 <= k < ids.len() ==> index.contains_key(ids[k]) && !is_protected(protected, ids[k])
            && victims[k].1@ == index[ids[k]].path
    &&& kept == remove_all(index, ids)
    &&& total_size(after.entries) == total_size(before.entries) - sum_sizes(index, ids, ids.len() as int)
    &&& forall|j: int|
        0 <= j < ids.len() ==> total_size(before.entries) - #[trigger] sum_sizes(index, ids, j)
            > before.max_bytes
    &&& total_size(after.entries) <= before.max_bytes || forall|id: Seq<char>|
        #[trigger] kept.contains_key(id) ==> is_protected(protected, id)
    &&& forall|k: int, id: Seq<char>|
        0 <= k < ids.len() && #[trigger] kept.contains_key(id) && !is_protected(protected, id)
            ==> index[#[trigger] ids[k]].last_played <= kept[id].last_played
    &&& forall|k1: int, k2: int|
        0 <= k1 <= k2 < ids.len() ==> index[#[trigger] ids[k1]].last_played <= index[#[trigger] ids[
            k2]].last_played
}

/// An id stays in `remove_all(index, ids)` exactly when it is in `index`
/// and not among `ids`, with the same file.
pub proof fn lemma_remove_all(index: Map<Seq<char>, EntryView>, ids: Seq<Seq<char>>, id: Seq<char>)
    ensures
        remove_all(index, ids).contains_key(id) <==> index.contains_key(id) && !ids.contains(id),
        remove_all(index, ids).contains_key(id) ==> remove_all(index, ids)[id] == index[id],
    decreases ids.len(),
{
    if ids.len() > 0 {
        lemma_remove_all(index, ids.drop_last(), id);
        if ids.drop_last().contains(id) {
            let k = choose|k: int| 0 <= k < ids.drop_last().len() && ids.drop_last()[k] == id;
            assert(ids[k] == id);
        }
        if ids.contains(id) && id != ids.last() {
            let k = choose|k: int| 0 <= k < ids.len() && ids[k] == id;
            assert(ids.drop_last()[k] == id);
        }
    }
}

/// Sums over a prefix do not see what is appended after it.
pub proof fn lemma_sum_sizes_push(
    index: Map<Seq<char>, EntryView>,
    ids: Seq<Seq<char>>,
    id: Seq<char>,
    j: int,
)
    requires
        j <= ids.len(),
    ensures
        sum_sizes(index, ids.push(id), j) == sum_sizes(index, ids, j),
    decreases j,
{
    if j > 0 {
        lemma_sum_sizes_push(index, ids, id, j - 1);
        assert(ids.push(id)[j - 1] == ids[j - 1]);
    }
}

/// True when `id` is one of `protected`.
fn is_protected_id(protected: &[&str], id: &str) -> (res: bool)
    ensures
        res == is_protected(protected@, id@),
{
    let n = protected.len();
    for k in 0..n
        invariant
            n == protected@.len(),
            forall|j: int| 0 <= j < k ==> protected@[j]@ != id@,
    {
        if str_equals(protected[k], id) {
            return true;
        }
    }
    false
}

impl CacheState {
    /// Evicts least-recently-played files until the total size is within the
    /// budget, never touching an id in `protected`. Returns the evicted
    /// (id, path) pairs in eviction order; deleting the files is the
    /// caller's part. See [`lru_eviction`] for what is promised.
    pub fn evict_lru(&mut self, protected: &[&str]) -> (res: Vec<(String, String)>)
        requires
            old(self).wf(),
        ensures
            final(self).wf(),
            lru_eviction(old(self)@, protected@, res@, final(self)@),
            final(self)@.dir == old(self)@.dir,
            final(self)@.extension == old(self)@.extension,
            final(self)@.max_bytes == old(self)@.max_bytes,
            final(self)@.download_window == old(self)@.download_window,
    {
        let ghost index = map_of(self@.entries);
        let ghost total0 = total_size(self@.entries);
        let max_bytes = self.max_bytes as u128;
        let mut total: u128 = self.total_bytes();
        let mut victims: Vec<(String, String)> = Vec::new();
        loop
            invariant
                self.wf(),
                self@.dir == old(self)@.dir,
                self@.extension == old(self)@.extension,
                self@.max_bytes == old(self)@.max_bytes,
                self@.download_window == old(self)@.download_window,
                max_bytes == self@.max_bytes,
                index == map_of(old(self)@.entries),
                total0 == total_size(old(self)@.entries),
                total == total_size(self@.entries),
                victim_ids(victims@).no_duplicates(),
                forall|k: int|
                    #![trigger victim_ids(victims@)[k]]
                    0 <= k < victims@.len() ==> index.contains_key(victim_ids(victims@)[k])
                        && !is_protected(protected@, victim_ids(victims@)[k]) && victims@[k].1@
                        == index[victim_ids(victims@)[k]].path,
                map_of(self@.entries) == remove_all(index, victim_ids(victims@)),
                total_size(self@.entries) == total0 - sum_sizes(
                    index,
                    victim_ids(victims@),
                    victims@.len() as int,
                ),
                forall|j: int|
                    0 <= j < victims@.len() ==> total0 - #[trigger] sum_sizes(
                        index,
                        victim_ids(victims@),
                        j,
                    ) > self@.max_bytes,
                forall|k: int, i: int|
                    0 <= k < victims@.len() && 0 <= i < self@.entries.len() && !is_protected(
                        protected@,
                        #[trigger] self@.entries[i].0,
                    ) ==> index[#[trigger] victim_ids(victims@)[k]].last_played
                        <= self@.entries[i].1.last_played,
                forall|k1: int, k2: int|
                    0 <= k1 <= k2 < victims@.len() ==> index[#[trigger] victim_ids(
                        victims@,
                    )[k1]].last_played <= index[#[trigger] victim_ids(victims@)[k2]].last_played,
            ensures
                total <= max_bytes || forall|i: int|
                    0 <= i < self@.entries.len() ==> is_protected(
                        protected@,
                        #[trigger] self@.entries[i].0,
                    ),
            decreases self@.entries.len(),
        {
            if total <= max_bytes {
                break;
            }
            let n = self.entries.len();
            let mut best: Option<usize> = None;
            for i in 0..n
                invariant
                    n == self@.entries.len(),
                    match best {
                        Some(b) => b < i && !is_protected(protected@, self@.entries[b as int].0)
                            && forall|j: int|
                            0 <= j < i && !is_protected(protected@, #[trigger] self@.entries[j].0)
                                ==> self@.entries[b as int].1.last_played
                                <= self@.entries[j].1.last_played,
                        None => forall|j: int|
                            0 <= j < i ==> is_protected(protected@, #[trigger] self@.entries[j].0),
                    },
            {
                if !is_protected_id(protected, self.entries[i].0.as_str()) {
                    match best {
                        None => {
                            best = Some(i);
                        },
                        Some(b) => {
                            if self.entries[i].1.last_played < self.entries[b].1.last_played {
                                best = Some(i);
                            }
                        },
                    }
                }
            }
            match best {
                None => {
                    break;
                },
                Some(m) => {
                    let ghost before = self@.entries;
                    let ghost ids = victim_ids(victims@);
                    let ghost vid = before[m as int].0;
                    proof {
                        lemma_map_of(before);
                        lemma_remove_all(index, ids, vid);
                        lemma_map_of_remove(before, m as int);
                        lemma_total_remove(before, m as int);
                        lemma_total_bounds(before.remove(m as int));
                    }
                    let (id, entry) = self.entries.remove(m);
                    assert(self@.entries =~= before.remove(m as int));
                    total = total - entry.size as u128;
                    victims.push((id, entry.path));
                    proof {
                        let ids2 = victim_ids(victims@);
                        assert(ids2 =~= ids.push(vid));
                        assert(ids2.drop_last() =~= ids);
                        assert(map_of(self@.entries) =~= remove_all(index, ids2));
                        assert forall|j: int| 0 <= j <= ids.len() implies sum_sizes(index, ids2, j)
                            == sum_sizes(index, ids, j) by {
                            lemma_sum_sizes_push(index, ids, vid, j);
                        }
                        assert(sum_sizes(index, ids2, ids2.len() as int) == sum_sizes(
                            index,
                            ids,
                            ids.len() as int,
                        ) + index[vid].size);
                        assert forall|k: int, i: int|
                            0 <= k < ids2.len() && 0 <= i < self@.entries.len() && !is_protected(
                                protected@,
                                #[trigger] self@.entries[i].0,
                            ) implies index[#[trigger] ids2[k]].last_played
                            <= self@.entries[i].1.last_played by {
                            let src = if i < m {
                                i
                            } else {
                                i + 1
                            };
                            assert(self@.entries[i] == before[src]);
                            if k < ids.len() {
                                assert(ids2[k] == ids[k]);
                            }
                        }
                        assert forall|k1: int, k2: int|
                            0 <= k1 <= k2 < ids2.len() implies index[#[trigger] ids2[k1]].last_played
                            <= index[#[trigger] ids2[k2]].last_played by {
                            if k2 == ids.len() && k1 < k2 {
                                assert(ids2[k1] == ids[k1]);
                            } else if k2 < ids.len() {
                                assert(ids2[k1] == ids[k1]);
                                assert(ids2[k2] == ids[k2]);
                            }
                        }
                        assert forall|k: int|
                            #![trigger ids2[k]]
                            0 <= k < ids2.len() implies index.contains_key(ids2[k])
                                && !is_protected(protected@, ids2[k]) && victims@[k].1@
                                == index[ids2[k]].path by {
                            if k < ids.len() {
                                assert(ids2[k] == ids[k]);
                            }
                        }
                        assert(ids2.no_duplicates()) by {
                            assert(!ids.contains(vid));
                            assert forall|a: int, b: int|
                                0 <= a < ids2.len() && 0 <= b < ids2.len() && a != b implies ids2[a]
                                != ids2[b] by {
                                if a < ids.len() && b < ids.len() {
                                    assert(ids2[a] == ids[a]);
                                    assert(ids2[b] == ids[b]);
                                } else if a < ids.len() {
                                    assert(ids2[a] == ids[a]);
                                } else if b < ids.len() {
                                    assert(ids2[b] == ids[b]);
                                }
                            }
                        }
                    }
                },
            }
        }
        proof {
            let ids = victim_ids(victims@);
            let kept = map_of(self@.entries);
            lemma_map_of(self@.entries);
            assert forall|k: int, id: Seq<char>|
                0 <= k < ids.len() && #[trigger] kept.contains_key(id) && !is_protected(
                    protected@,
                    id,
                ) implies index[#[trigger] ids[k]].last_played <= kept[id].last_played by {
                let i = choose|i: int| 0 <= i < self@.entries.len() && self@.entries[i].0 == id;
                assert(kept[self@.entries[i].0] == self@.entries[i].1);
            }
            if total > max_bytes {
                assert forall|id: Seq<char>| #[trigger] kept.contains_key(id) implies is_protected(
                    protected@,
                    id,
                ) by {
                    let i = choose|i: int| 0 <= i < self@.entries.len() && self@.entries[i].0 == id;
                    assert(is_protected(protected@, self@.entries[i].0));
                }
            }
        }
        victims
    }
}

} // verus!

verus! {

// ---------------------------------------------------------------------------
// Ensuring a file is cached
// ---------------------------------------------------------------------------

/// What to do for a request to have `id` cached.
#[derive(Debug, PartialEq, Eq)]
pub enum EnsureStep {
    /// Already on disk, here is the path (its "last played" time was
    /// updated).
    Hit(String),
    /// Not cached: download to `tmp_path`, then move it to `final_path`.
    Fetch { final_path: String, tmp_path: String },
}

impl CacheState {
    /// First step of ensuring `id` is cached at clock reading `now`: an
    /// invalid id is refused before anything else, a cached one is a hit
    /// (and counts as played now), anything else has to be downloaded.
    pub fn begin_ensure_at(&mut self, id: &str, now: u64) -> (res: Result<EnsureStep, CacheError>)
        requires
            old(self).wf(),
        ensures
            final(self).wf(),
            !valid_cache_id(id@) ==> (res matches Err(CacheError::InvalidId) && final(self)@ == old(self)@),
            valid_cache_id(id@) && map_of(old(self)@.entries).contains_key(id@) ==> (
            res matches Ok(EnsureStep::Hit(path)) && path@ == map_of(old(self)@.entries)[id@].path
                && map_of(final(self)@.entries) == played_at(map_of(old(self)@.entries), id@, now)
                && total_size(final(self)@.entries) == total_size(old(self)@.entries)),
            valid_cache_id(id@) && !map_of(old(self)@.entries).contains_key(id@) ==> (
            res matches Ok(EnsureStep::Fetch { final_path, tmp_path }) && final_path@ == join_path(
                old(self)@.dir,
                cache_file_name(id@, old(self)@.extension),
            ) && tmp_path@ == join_path(old(self)@.dir, id@ + "part"@.insert(0, '.')) && final(self)@ == old(self)@),
            final(self)@.dir == old(self)@.dir,
            final(self)@.extension == old(self)@.extension,
            final(self)@.max_bytes == old(self)@.max_bytes,
            final(self)@.download_window == old(self)@.download_window,
    {
        let (final_path, tmp_path) = match self.download_paths(id) {
            Ok(paths) => paths,
            Err(err) => return Err(err),
        };
        match self.cached_path(id) {
            Some(path) => {
                self.touch_at(id, now);
                Ok(EnsureStep::Hit(path))
            },
            None => Ok(EnsureStep::Fetch { final_path, tmp_path }),
        }
    }

    /// [`Self::begin_ensure_at`] at the current clock reading.
    pub fn begin_ensure(&mut self, id: &str) -> (res: Result<EnsureStep, CacheError>)
        requires
            old(self).wf(),
        ensures
            final(self).wf(),
            !valid_cache_id(id@) ==> (res matches Err(CacheError::InvalidId) && final(self)@ == old(self)@),
            valid_cache_id(id@) && map_of(old(self)@.entries).contains_key(id@) ==> (
            res matches Ok(EnsureStep::Hit(path)) && path@ == map_of(old(self)@.entries)[id@].path),
            valid_cache_id(id@) && !map_of(old(self)@.entries).contains_key(id@) ==> (
            res matches Ok(EnsureStep::Fetch { final_path, tmp_path }) && final_path@ == join_path(
                old(self)@.dir,
                cache_file_name(id@, old(self)@.extension),
            ) && tmp_path@ == join_path(old(self)@.dir, id@ + "part"@.insert(0, '.')) && final(self)@ == old(self)@),
            valid_cache_id(id@) ==> exists|now: u64|
                map_of(final(self)@.entries) == played_at(map_of(old(self)@.entries), id@, now),
            map_of(final(self)@.entries).dom() == map_of(old(self)@.entries).dom(),
            total_size(final(self)@.entries) == total_size(old(self)@.entries),
            final(self)@.max_bytes == old(self)@.max_bytes,
            final(self)@.download_window == old(self)@.download_window,
    {
        let ghost before = map_of(self@.entries);
        let now = now_ts();
        let res = self.begin_ensure_at(id, now);
        assert(map_of(final(self)@.entries).dom() =~= map_of(old(self)@.entries).dom());
        proof {
            if valid_cache_id(id@) {
                assert(map_of(self@.entries) == played_at(before, id@, now));
            }
        }
        res
    }

    /// Last step of ensuring `id` is cached: records the download of `size`
    /// bytes to `path` (played at `now`), then evicts least-recently-played
    /// files to fit the budget, sparing `protected`. Returns the outcome and
    /// the paths of the evicted files, which the caller deletes.
    pub fn finish_download_at(
        &mut self,
        id: String,
        path: String,
        size: u64,
        now: u64,
        protected: &[&str],
    ) -> (res: (EnsureOutcome, Vec<String>))
        requires
            old(self).wf(),
        ensures
            final(self).wf(),
            exists|recorded: CacheView, victims: Seq<(String, String)>|
                {
                    &&& recorded.dir == old(self)@.dir
                    &&& recorded.extension == old(self)@.extension
                    &&& recorded.max_bytes == old(self)@.max_bytes
                    &&& recorded.download_window == old(self)@.download_window
                    &&& unique_keys(recorded.entries)
                    &&& map_of(recorded.entries) == map_of(old(self)@.entries).insert(
                        id@,
                        EntryView { path: path@, size, last_played: now },
                    )
                    &&& lru_eviction(recorded, protected@, victims, final(self)@)
                    &&& res.0 matches EnsureOutcome::Downloaded { path: p, evicted_ids }
                    &&& p@ == path@
                    &&& evicted_ids@.len() == victims.len()
                    &&& res.1@.len() == victims.len()
                    &&& forall|k: int|
                        0 <= k < victims.len() ==> #[trigger] evicted_ids@[k] == victims[k].0
                            && res.1@[k] == victims[k].1
                },
            final(self)@.dir == old(self)@.dir,
            final(self)@.extension == old(self)@.extension,
            final(self)@.max_bytes == old(self)@.max_bytes,
            final(self)@.download_window == old(self)@.download_window,
    {
        let kept_path = path.clone();
        self.record_download_at(id, path, size, now);
        let ghost recorded = self@;
        let victims = self.evict_lru(protected);
        let mut evicted_ids: Vec<String> = Vec::new();
        let mut evicted_paths: Vec<String> = Vec::new();
        let n = victims.len();
        for k in 0..n
            invariant
                n == victims@.len(),
                evicted_ids@.len() == k,
                evicted_paths@.len() == k,
                forall|j: int|
                    #![trigger victims@[j]]
                    0 <= j < k ==> evicted_ids@[j] == victims@[j].0 && evicted_paths@[j]
                        == victims@[j].1,
        {
            evicted_ids.push(victims[k].0.clone());
            evicted_paths.push(victims[k].1.clone());
        }
        (EnsureOutcome::Downloaded { path: kept_path, evicted_ids }, evicted_paths)
    }

    /// [`Self::finish_download_at`] at the current clock reading.
    pub fn finish_download(
        &mut self,
        id: String,
        path: String,
        size: u64,
        protected: &[&str],
    ) -> (res: (EnsureOutcome, Vec<String>))
        requires
            old(self).wf(),
        ensures
            final(self).wf(),
            exists|now: u64, recorded: CacheView, victims: Seq<(String, String)>|
                {
                    &&& recorded.max_bytes == old(self)@.max_bytes
                    &&& unique_keys(recorded.entries)
                    &&& map_of(recorded.entries) == map_of(old(self)@.entries).insert(
                        id@,
                        EntryView { path: path@, size, last_played: now },
                    )
                    &&& lru_eviction(recorded, protected@, victims, final(self)@)
                    &&& res.0 matches EnsureOutcome::Downloaded { path: p, evicted_ids }
                    &&& p@ == path@
                    &&& evicted_ids@.len() == victims.len()
                    &&& res.1@.len() == victims.len()
                    &&& forall|k: int|
                        0 <= k < victims.len() ==> #[trigger] evicted_ids@[k] == victims[k].0
                            && res.1@[k] == victims[k].1
                },
            final(self)@.dir == old(self)@.dir,
            final(self)@.extension == old(self)@.extension,
            final(self)@.max_bytes == old(self)@.max_bytes,
            final(self)@.download_window == old(self)@.download_window,
    {
        let now = now_ts();
        self.finish_download_at(id, path, size, now, protected)
    }
}

} // verus!

verus! {

/// Whether a NetworkManager `Metered` property value means the connection
/// is metered: 1 (yes) and 3 (guess-yes) do; 0 (unknown), 2 (no) and
/// 4 (guess-no) do not.
pub fn metered_from_nm_state(value: u32) -> (res: bool)
    ensures
        res == (value == 1 || value == 3),
{
    value == 1 || value == 3
}

} // verus!
