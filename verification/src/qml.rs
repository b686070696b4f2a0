//! The state behind the QML-facing objects: the asset list model, the
//! synchronous cache-hit index the GUI thread reads, and the settings'
//! defaults and conversions.
use vstd::prelude::*;
use vstd::string::StrSliceExecFns;
use vstd::string::StringExecFns;

use crate::assoc::{
    lemma_map_of, lemma_map_of_push, lemma_map_of_remove, lemma_map_of_update, map_of, unique_keys,
};
use crate::manifest::{time_of_day_matches, time_of_day_matches_spec, AerialAsset, AssetView};
use crate::text::{str_equals, to_owned_string};
use crate::NANOS_PER_SECOND;

verus! {

/// Default on-disk budget for cached videos (16 GiB).
pub const DEFAULT_MAX_CACHE_BYTES: i64 = 16 * 1024 * 1024 * 1024;

/// Budget for the config dialog's preview images (256 MiB).
pub const MAX_THUMBNAIL_CACHE_BYTES: u64 = 256 * 1024 * 1024;

/// How long the wallpaper waits between pulling new videos (one day).
pub const DEFAULT_DOWNLOAD_INTERVAL_SECS: i64 = 24 * 60 * 60;

/// Extension of the thumbnail cache's files.
pub const THUMBNAIL_EXTENSION: &'static str = "png";

/// The URL scheme of local files.
pub const FILE_SCHEME: &'static str = "file://";

/// `file://` followed by the path.
pub open spec fn file_url_spec(path: Seq<char>) -> Seq<char> {
    FILE_SCHEME@ + path
}

/// The `file://` URL of a local path.
pub fn path_to_file_url(path: &str) -> (res: String)
    ensures
        res@ == file_url_spec(path@),
{
    let mut url = to_owned_string(FILE_SCHEME);
    url.append(path);
    url
}

/// The path of a `file://` URL, or `None` for any other URL.
pub fn file_url_path(url: &str) -> (res: Option<&str>)
    ensures
        match res {
            Some(p) => url@ == file_url_spec(p@),
            None => !(url@.len() >= FILE_SCHEME@.len() && url@.take(FILE_SCHEME@.len() as int)
                == FILE_SCHEME@),
        },
{
    proof {
        reveal_strlit("file://");
    }
    let scheme_len = FILE_SCHEME.unicode_len();
    let n = url.unicode_len();
    if n < scheme_len {
        return None;
    }
    let head = url.substring_char(0, scheme_len);
    if !str_equals(head, FILE_SCHEME) {
        return None;
    }
    let rest = url.substring_char(scheme_len, n);
    assert(url@ =~= FILE_SCHEME@ + rest@);
    Some(rest)
}

/// Seconds as nanoseconds: negative values count as 0, and the product
/// saturates at `u64::MAX`.
pub open spec fn interval_nanos_spec(seconds: i64) -> int {
    let s = if seconds < 0 {
        0
    } else {
        seconds as int
    };
    if s * NANOS_PER_SECOND > u64::MAX {
        u64::MAX as int
    } else {
        s * NANOS_PER_SECOND
    }
}

/// The download interval setting, in seconds, as the nanoseconds the cache
/// works in.
pub fn interval_nanos(seconds: i64) -> (res: u64)
    ensures
        res == interval_nanos_spec(seconds),
{
    let s: u64 = if seconds < 0 {
        0
    } else {
        seconds as u64
    };
    match s.checked_mul(NANOS_PER_SECOND) {
        Some(v) => v,
        None => u64::MAX,
    }
}

/// The cache budget setting as bytes: negative values count as 0.
pub fn cache_budget(max_cache_bytes: i64) -> (res: u64)
    ensures
        res == if max_cache_bytes < 0 {
            0
        } else {
            max_cache_bytes as int
        },
{
    if max_cache_bytes < 0 {
        0
    } else {
        max_cache_bytes as u64
    }
}

// ---------------------------------------------------------------------------
// The synchronous cache-hit index
// ---------------------------------------------------------------------------

/// True when one of `ids` is `id`.
pub open spec fn names_any(ids: Seq<String>, id: Seq<char>) -> bool {
    exists|k: int| 0 <= k < ids.len() && #[trigger] ids[k]@ == id
}

/// Cached ids and their `file://` URLs, mirrored for callers that must never
/// wait on the cache itself.
pub struct PathIndex {
    entries: Vec<(String, String)>,
}

/// The view of a list of (id, url) pairs.
spec fn pairs_view(entries: Seq<(String, String)>) -> Seq<(Seq<char>, Seq<char>)> {
    entries.map_values(|p: (String, String)| (p.0@, p.1@))
}

impl View for PathIndex {
    type V = Map<Seq<char>, Seq<char>>;

    closed spec fn view(&self) -> Map<Seq<char>, Seq<char>> {
        map_of(pairs_view(self.entries@))
    }
}

impl PathIndex {
    /// Well-formed: no id occurs twice.
    pub closed spec fn wf(&self) -> bool {
        unique_keys(pairs_view(self.entries@))
    }

    /// An empty index.
    pub fn new() -> (res: Self)
        ensures
            res.wf(),
            res@ == Map::<Seq<char>, Seq<char>>::empty(),
    {
        let res = PathIndex { entries: Vec::new() };
        assert(pairs_view(res.entries@) =~= Seq::empty());
        res
    }

    /// Position of `id`.
    fn find(&self, id: &str) -> (res: Option<usize>)
        requires
            self.wf(),
        ensures
            match res {
                Some(i) => i < self.entries@.len() && self.entries@[i as int].0@ == id@
                    && self@.contains_key(id@) && self@[id@] == self.entries@[i as int].1@,
                None => !self@.contains_key(id@),
            },
    {
        proof {
            lemma_map_of(pairs_view(self.entries@));
        }
        let n = self.entries.len();
        for i in 0..n
            invariant
                n == self.entries@.len(),
                self.wf(),
                forall|j: int| 0 <= j < i ==> self.entries@[j].0@ != id@,
        {
            if str_equals(self.entries[i].0.as_str(), id) {
                proof {
                    lemma_map_of(pairs_view(self.entries@));
                }
                assert(pairs_view(self.entries@)[i as int] == (
                    self.entries@[i as int].0@,
                    self.entries@[i as int].1@,
                ));
                return Some(i);
            }
        }
        proof {
            if self@.contains_key(id@) {
                let i = choose|i: int|
                    0 <= i < pairs_view(self.entries@).len() && pairs_view(self.entries@)[i].0
                        == id@;
                assert(self.entries@[i].0@ == id@);
            }
        }
        None
    }

    /// The URL recorded for `id`.
    pub fn get(&self, id: &str) -> (res: Option<String>)
        requires
            self.wf(),
        ensures
            match res {
                Some(url) => self@.contains_key(id@) && self@[id@] == url@,
                None => !self@.contains_key(id@),
            },
    {
        match self.find(id) {
            Some(i) => Some(self.entries[i].1.clone()),
            None => None,
        }
    }

    /// Records `url` for `id`, replacing what was there.
    pub fn insert(&mut self, id: String, url: String)
        requires
            old(self).wf(),
        ensures
            final(self).wf(),
            final(self)@ == old(self)@.insert(id@, url@),
    {
        let ghost before = pairs_view(self.entries@);
        match self.find(id.as_str()) {
            Some(i) => {
                let ghost old_entries = self.entries@;
                let _ = self.entries.remove(i);
                self.entries.insert(i, (id, url));
                proof {
                    assert(pairs_view(self.entries@) =~= before.update(
                        i as int,
                        (before[i as int].0, url@),
                    ));
                    lemma_map_of_update(before, i as int, url@);
                }
            },
            None => {
                proof {
                    lemma_map_of(before);
                }
                self.entries.push((id, url));
                proof {
                    assert(pairs_view(self.entries@) =~= before.push((id@, url@)));
                    lemma_map_of_push(before, (id@, url@));
                }
            },
        }
    }

    /// Forgets `id`.
    pub fn remove(&mut self, id: &str)
        requires
            old(self).wf(),
        ensures
            final(self).wf(),
            final(self)@ == old(self)@.remove(id@),
    {
        let ghost before = pairs_view(self.entries@);
        match self.find(id) {
            Some(i) => {
                let _ = self.entries.remove(i);
                proof {
                    assert(pairs_view(self.entries@) =~= before.remove(i as int));
                    lemma_map_of_remove(before, i as int);
                }
            },
            None => {
                assert(self@ =~= old(self)@.remove(id@));
            },
        }
    }

    /// Drops the ids that LRU eviction removed.
    pub fn forget_evicted(&mut self, evicted: &[String])
        requires
            old(self).wf(),
        ensures
            final(self).wf(),
            forall|id: Seq<char>|
                #[trigger] final(self)@.contains_key(id) <==> old(self)@.contains_key(id)
                    && !names_any(evicted@, id),
            forall|id: Seq<char>|
                #[trigger] final(self)@.contains_key(id) ==> final(self)@[id] == old(self)@[id],
    {
        let n = evicted.len();
        for k in 0..n
            invariant
                n == evicted@.len(),
                self.wf(),
                forall|id: Seq<char>|
                    #[trigger] self@.contains_key(id) <==> old(self)@.contains_key(id)
                        && !names_any(evicted@.take(k as int), id),
                forall|id: Seq<char>|
                    #[trigger] self@.contains_key(id) ==> self@[id] == old(self)@[id],
        {
            self.remove(evicted[k].as_str());
            proof {
                assert forall|id: Seq<char>|
                    names_any(evicted@.take(k + 1), id) <==> names_any(evicted@.take(k as int), id)
                        || id == evicted@[k as int]@ by {
                    if names_any(evicted@.take(k + 1), id) {
                        let j = choose|j: int|
                            0 <= j < evicted@.take(k + 1).len() && #[trigger] evicted@.take(
                                k + 1,
                            )[j]@ == id;
                        if j < k {
                            assert(evicted@.take(k as int)[j] == evicted@.take(k + 1)[j]);
                        }
                    }
                    if names_any(evicted@.take(k as int), id) {
                        let j = choose|j: int|
                            0 <= j < evicted@.take(k as int).len() && #[trigger] evicted@.take(
                                k as int,
                            )[j]@ == id;
                        assert(evicted@.take(k + 1)[j] == evicted@.take(k as int)[j]);
                    }
                    if id == evicted@[k as int]@ {
                        assert(evicted@.take(k + 1)[k as int] == evicted@[k as int]);
                    }
                }
            }
        }
        assert(evicted@.take(n as int) =~= evicted@);
    }

    /// Every id in the index.
    pub fn ids(&self) -> (res: Vec<String>)
        requires
            self.wf(),
        ensures
            forall|id: Seq<char>|
                self@.contains_key(id) <==> exists|k: int| 0 <= k < res@.len() && #[trigger] res@[k]@
                    == id,
            forall|a: int, b: int|
                0 <= a < b < res@.len() ==> #[trigger] res@[a]@ != #[trigger] res@[b]@,
    {
        proof {
            lemma_map_of(pairs_view(self.entries@));
        }
        let mut out: Vec<String> = Vec::new();
        let n = self.entries.len();
        for i in 0..n
            invariant
                n == self.entries@.len(),
                out@.len() == i,
                forall|j: int| 0 <= j < i ==> #[trigger] out@[j]@ == self.entries@[j].0@,
        {
            out.push(self.entries[i].0.clone());
        }
        proof {
            assert forall|id: Seq<char>| self@.contains_key(id) implies exists|k: int|
                0 <= k < out@.len() && #[trigger] out@[k]@ == id by {
                let i = choose|i: int|
                    0 <= i < pairs_view(self.entries@).len() && pairs_view(self.entries@)[i].0
                        == id;
                assert(out@[i]@ == id);
            }
            assert forall|id: Seq<char>|
                (exists|k: int| 0 <= k < out@.len() && #[trigger] out@[k]@ == id) implies self@.contains_key(
                id,
            ) by {
                let k = choose|k: int| 0 <= k < out@.len() && #[trigger] out@[k]@ == id;
                assert(pairs_view(self.entries@)[k].0 == id);
            }
            assert forall|a: int, b: int| 0 <= a < b < out@.len() implies #[trigger] out@[a]@
                != #[trigger] out@[b]@ by {
                assert(pairs_view(self.entries@)[a].0 == out@[a]@);
                assert(pairs_view(self.entries@)[b].0 == out@[b]@);
            }
        }
        out
    }

    /// Settles a lookup of `id` that found `url`: when the file behind it is
    /// still there (`live`), the URL is the answer; otherwise the stale
    /// record is dropped (unless `id` was re-recorded meanwhile) and there is
    /// no answer, so the caller downloads again.
    pub fn settle(&mut self, id: &str, url: String, live: bool) -> (res: Option<String>)
        requires
            old(self).wf(),
        ensures
            final(self).wf(),
            live ==> res == Some(url) && final(self)@ == old(self)@,
            !live ==> res is None && (if old(self)@.contains_key(id@) && old(self)@[id@] == url@ {
                final(self)@ == old(self)@.remove(id@)
            } else {
                final(self)@ == old(self)@
            }),
    {
        if live {
            return Some(url);
        }
        match self.get(id) {
            Some(current) => {
                if str_equals(current.as_str(), url.as_str()) {
                    self.remove(id);
                }
            },
            None => {},
        }
        None
    }
}

// ---------------------------------------------------------------------------
// The asset list model
// ---------------------------------------------------------------------------

/// Roles of the asset list model, in order: id, accessibility label, the four
/// URLs (1080 SDR, 1080 HDR, 4K SDR, 4K HDR), time of day, preview image.
pub const ROLE_COUNT: i32 = 8;

/// The field of an asset a role shows, or `None` for an unknown role.
pub open spec fn role_field(a: AssetView, role: int) -> Option<Seq<char>> {
    if role == 0 {
        Some(a.id)
    } else if role == 1 {
        Some(a.accessibility_label)
    } else if role == 2 {
        Some(a.url_1080_sdr)
    } else if role == 3 {
        Some(a.url_1080_hdr)
    } else if role == 4 {
        Some(a.url_4k_sdr)
    } else if role == 5 {
        Some(a.url_4k_hdr)
    } else if role == 6 {
        Some(a.time_of_day)
    } else if role == 7 {
        Some(a.preview_image)
    } else {
        None
    }
}

/// The name QML uses for role `role` (see [`role_field`]).
pub open spec fn role_name(role: int) -> Seq<char> {
    if role == 0 {
        "id"@
    } else if role == 1 {
        "accessibilityLabel"@
    } else if role == 2 {
        "url1080SDR"@
    } else if role == 3 {
        "url1080HDR"@
    } else if role == 4 {
        "url4kSDR"@
    } else if role == 5 {
        "url4kHDR"@
    } else if role == 6 {
        "timeOfDay"@
    } else {
        "previewImage"@
    }
}

/// The name QML uses for each role, by role number.
pub fn role_names() -> (res: Vec<(i32, &'static str)>)
    ensures
        res@.len() == ROLE_COUNT,
        forall|k: int|
            #![trigger res@[k]]
            0 <= k < res@.len() ==> res@[k].0 == k && res@[k].1@ == role_name(k),
{
    let mut roles: Vec<(i32, &'static str)> = Vec::new();
    roles.push((0, "id"));
    roles.push((1, "accessibilityLabel"));
    roles.push((2, "url1080SDR"));
    roles.push((3, "url1080HDR"));
    roles.push((4, "url4kSDR"));
    roles.push((5, "url4kHDR"));
    roles.push((6, "timeOfDay"));
    roles.push((7, "previewImage"));
    roles
}

/// Backing state of the asset list model: the assets, and whether they have
/// finished loading.
pub struct AerialManifestRust {
    assets: Vec<AerialAsset>,
    ready: bool,
}

impl View for AerialManifestRust {
    /// The assets shown, and whether loading has finished.
    type V = (Seq<AerialAsset>, bool);

    closed spec fn view(&self) -> (Seq<AerialAsset>, bool) {
        (self.assets@, self.ready)
    }
}

impl AerialManifestRust {
    /// An empty model, not yet ready.
    pub fn new() -> (res: Self)
        ensures
            res@.0.len() == 0,
            !res@.1,
    {
        AerialManifestRust { assets: Vec::new(), ready: false }
    }

    /// The assets shown.
    pub fn assets(&self) -> (res: &Vec<AerialAsset>)
        ensures
            res@ == self@.0,
    {
        &self.assets
    }

    /// Whether loading has finished.
    pub fn is_ready(&self) -> (res: bool)
        ensures
            res == self@.1,
    {
        self.ready
    }

    /// Replaces the whole list once a load finishes, and marks it ready.
    pub fn finish_loading(&mut self, assets: Vec<AerialAsset>)
        ensures
            final(self)@ == (assets@, true),
    {
        self.assets = assets;
        self.ready = true;
    }

    /// The number of rows (the asset count, as QML's `int`).
    pub fn row_count(&self) -> (res: i32)
        ensures
            res == self@.0.len() as i32,
    {
        #[verifier::truncate]
        (self.assets.len() as i32)
    }

    /// What a delegate sees for `role` in row `row`; `None` for a row out of
    /// range or an unknown role.
    pub fn data(&self, row: i32, role: i32) -> (res: Option<String>)
        ensures
            match res {
                Some(s) => 0 <= row < self@.0.len() && role_field(
                    self@.0[row as int]@,
                    role as int,
                ) == Some(s@),
                None => !(0 <= row < self@.0.len()) || role_field(
                    self@.0[row as int]@,
                    role as int,
                ) is None,
            },
    {
        if row < 0 || row as usize >= self.assets.len() {
            return None;
        }
        let asset = &self.assets[row as usize];
        if role == 0 {
            Some(asset.id.clone())
        } else if role == 1 {
            Some(asset.accessibility_label.clone())
        } else if role == 2 {
            Some(asset.url_1080_sdr.clone())
        } else if role == 3 {
            Some(asset.url_1080_hdr.clone())
        } else if role == 4 {
            Some(asset.url_4k_sdr.clone())
        } else if role == 5 {
            Some(asset.url_4k_hdr.clone())
        } else if role == 6 {
            Some(asset.time_of_day.clone())
        } else if role == 7 {
            Some(asset.preview_image.clone())
        } else {
            None
        }
    }

    /// Whether an entry tagged `time_of_day` belongs in a playlist filtered
    /// with `mode` at local hour `hour` (see [`time_of_day_matches`]).
    pub fn matches_time_of_day(&self, time_of_day: &str, mode: i32, hour: i32) -> (res: bool)
        ensures
            res == time_of_day_matches_spec(time_of_day@, mode as int, hour as int),
    {
        time_of_day_matches(time_of_day, mode, hour)
    }
}

// ---------------------------------------------------------------------------
// The cache object's settings
// ---------------------------------------------------------------------------

/// The settings QML binds on the cache object, and its download gate.
pub struct AerialCacheRust {
    /// The quality ordinal (0 = 1080 SDR, 1 = 1080 HDR, 2 = 4K SDR,
    /// 3 = 4K HDR).
    pub quality: i32,
    /// The video cache's budget, in bytes.
    pub max_cache_bytes: i64,
    /// Minimum seconds between downloads of videos not cached yet; 0
    /// downloads whenever playback asks.
    pub download_interval_secs: i64,
    /// Whether a new video may be fetched right now.
    pub downloads_allowed: bool,
    /// Whether downloads wait for an unmetered connection.
    pub wifi_only: bool,
    /// The clip playing now.
    pub current_id: String,
    /// The clip queued next.
    pub next_id: String,
}

impl AerialCacheRust {
    /// The video cache's budget in bytes (see [`cache_budget`]).
    pub fn budget(&self) -> (res: u64)
        ensures
            res == if self.max_cache_bytes < 0 {
                0
            } else {
                self.max_cache_bytes as int
            },
    {
        cache_budget(self.max_cache_bytes)
    }

    /// The download interval in nanoseconds (see [`interval_nanos`]).
    pub fn interval(&self) -> (res: u64)
        ensures
            res == interval_nanos_spec(self.download_interval_secs),
    {
        interval_nanos(self.download_interval_secs)
    }

    /// The ids eviction must spare: the clip playing and the one queued
    /// next.
    pub fn protected_ids(&self) -> (res: Vec<&str>)
        ensures
            res@.len() == 2,
            res@[0]@ == self.current_id@,
            res@[1]@ == self.next_id@,
    {
        let mut ids: Vec<&str> = Vec::new();
        ids.push(self.current_id.as_str());
        ids.push(self.next_id.as_str());
        ids
    }
}

impl Default for AerialCacheRust {
    /// 1080 SDR, the default budget and interval, downloads allowed, no
    /// Wi-Fi restriction, and no clip playing or queued.
    fn default() -> (res: Self)
        ensures
            res.quality == 0,
            res.max_cache_bytes == DEFAULT_MAX_CACHE_BYTES,
            res.download_interval_secs == DEFAULT_DOWNLOAD_INTERVAL_SECS,
            res.downloads_allowed,
            !res.wifi_only,
            res.current_id@.len() == 0,
            res.next_id@.len() == 0,
    {
        AerialCacheRust {
            quality: 0,
            max_cache_bytes: DEFAULT_MAX_CACHE_BYTES,
            download_interval_secs: DEFAULT_DOWNLOAD_INTERVAL_SECS,
            downloads_allowed: true,
            wifi_only: false,
            current_id: String::new(),
            next_id: String::new(),
        }
    }
}

impl Default for AerialManifestRust {
    fn default() -> (res: Self)
        ensures
            res@.0.len() == 0,
            !res@.1,
    {
        Self::new()
    }
}

} // verus!
