//! The Aerial catalog: normalizing Apple's entries, picking a URL per quality
//! tier, and the time-of-day playlist filter.
use vstd::prelude::*;

use crate::text::{
    ascii_lower_chars, ascii_lowercase, is_blank, str_equals, str_is_blank, to_owned_string,
    trim_chars, trim_str,
};

pub mod time_filter;

verus! {

/// One playable Aerial clip: a non-blank id and label and, for each quality
/// tier, either a URL or an empty string.
#[derive(Debug, PartialEq, Eq)]
pub struct AerialAsset {
    pub id: String,
    pub accessibility_label: String,
    /// Apple's `timeOfDay`, trimmed and lower-cased: `day`, `night`,
    /// `sunrise` or `sunset`; empty when untagged or for a value outside
    /// those four.
    pub time_of_day: String,
    /// Apple's still preview for this clip; empty when there is none.
    pub preview_image: String,
    pub url_1080_sdr: String,
    pub url_1080_hdr: String,
    pub url_4k_sdr: String,
    pub url_4k_hdr: String,
}

/// The characters of every field of an [`AerialAsset`].
pub ghost struct AssetView {
    pub id: Seq<char>,
    pub accessibility_label: Seq<char>,
    pub time_of_day: Seq<char>,
    pub preview_image: Seq<char>,
    pub url_1080_sdr: Seq<char>,
    pub url_1080_hdr: Seq<char>,
    pub url_4k_sdr: Seq<char>,
    pub url_4k_hdr: Seq<char>,
}

impl View for AerialAsset {
    type V = AssetView;

    open spec fn view(&self) -> AssetView {
        AssetView {
            id: self.id@,
            accessibility_label: self.accessibility_label@,
            time_of_day: self.time_of_day@,
            preview_image: self.preview_image@,
            url_1080_sdr: self.url_1080_sdr@,
            url_1080_hdr: self.url_1080_hdr@,
            url_4k_sdr: self.url_4k_sdr@,
            url_4k_hdr: self.url_4k_hdr@,
        }
    }
}

impl Clone for AerialAsset {
    fn clone(&self) -> (res: Self)
        ensures
            res == *self,
    {
        AerialAsset {
            id: self.id.clone(),
            accessibility_label: self.accessibility_label.clone(),
            time_of_day: self.time_of_day.clone(),
            preview_image: self.preview_image.clone(),
            url_1080_sdr: self.url_1080_sdr.clone(),
            url_1080_hdr: self.url_1080_hdr.clone(),
            url_4k_sdr: self.url_4k_sdr.clone(),
            url_4k_hdr: self.url_4k_hdr.clone(),
        }
    }
}

/// The views of a list of assets, in order.
pub open spec fn asset_views(assets: Seq<AerialAsset>) -> Seq<AssetView> {
    assets.map_values(|a: AerialAsset| a@)
}

/// True when at least one quality tier has a URL.
pub open spec fn has_any_url_spec(a: AssetView) -> bool {
    a.url_1080_sdr.len() > 0 || a.url_1080_hdr.len() > 0 || a.url_4k_sdr.len() > 0
        || a.url_4k_hdr.len() > 0
}

impl AerialAsset {
    /// True when at least one quality tier has a URL.
    pub fn has_any_url(&self) -> (res: bool)
        ensures
            res == has_any_url_spec(self@),
    {
        !self.url_1080_sdr.as_str().is_empty() || !self.url_1080_hdr.as_str().is_empty()
            || !self.url_4k_sdr.as_str().is_empty() || !self.url_4k_hdr.as_str().is_empty()
    }
}

/// Why the catalog could not be fetched or read.
#[derive(Debug)]
pub enum ManifestError {
    /// The HTTP request failed.
    Request(reqwest::Error),
    /// The catalog document is not the JSON this crate expects.
    Parse(serde_json::Error),
    /// The resource tar could not be read.
    Tar(std::io::Error),
    /// The resource tar has no `entries.json` member.
    MissingEntries,
    /// The resource download grew past [`MAX_TAR_BYTES`].
    TooLarge,
    /// No catalog URL was tried.
    NoSource,
}

/// Hard ceiling on how much of a resource tar is buffered.
pub const MAX_TAR_BYTES: usize = 16 * 1024 * 1024;

/// Appends one downloaded chunk to the resource tar being buffered, refusing
/// (and leaving `body` untouched) when that would pass [`MAX_TAR_BYTES`].
pub fn append_tar_chunk(body: &mut Vec<u8>, chunk: &[u8]) -> (res: Result<(), ManifestError>)
    requires
        old(body)@.len() <= MAX_TAR_BYTES,
    ensures
        old(body)@.len() + chunk@.len() > MAX_TAR_BYTES ==> (res matches Err(
            ManifestError::TooLarge,
        ) && final(body)@ == old(body)@),
        old(body)@.len() + chunk@.len() <= MAX_TAR_BYTES ==> (res is Ok && final(body)@ == old(body)@ + chunk@),
        final(body)@.len() <= MAX_TAR_BYTES,
{
    if chunk.len() > MAX_TAR_BYTES - body.len() {
        return Err(ManifestError::TooLarge);
    }
    body.extend_from_slice(chunk);
    Ok(())
}

// ---------------------------------------------------------------------------
// Normalizing Apple's entries
// ---------------------------------------------------------------------------

/// One catalog entry as Apple publishes it: every field but `id` may be
/// missing. `shot_id` and `localized_name_key` stand in for a missing label,
/// `preview_image_900x580` for a missing preview, and `url_4k_sdr_240fps`
/// for a missing 4K SDR URL.
#[derive(Debug)]
pub struct RawAerialAsset {
    pub id: String,
    pub accessibility_label: Option<String>,
    pub localized_name_key: Option<String>,
    pub shot_id: Option<String>,
    pub time_of_day: Option<String>,
    pub preview_image: Option<String>,
    pub preview_image_900x580: Option<String>,
    pub url_1080_sdr: Option<String>,
    pub url_1080_hdr: Option<String>,
    pub url_4k_sdr: Option<String>,
    pub url_4k_sdr_240fps: Option<String>,
    pub url_4k_hdr: Option<String>,
}

/// A whole catalog document as Apple publishes it.
#[derive(Debug)]
pub struct RawAerialManifest {
    pub version: u32,
    pub initial_asset_count: u32,
    pub assets: Vec<RawAerialAsset>,
}

/// The catalog after normalization: only entries that can be played.
#[derive(Debug, PartialEq, Eq)]
pub struct AerialManifestData {
    pub version: u32,
    pub initial_asset_count: u32,
    pub assets: Vec<AerialAsset>,
}

/// The characters of an optional value that is present and not blank.
pub open spec fn nonblank(value: Option<String>) -> Option<Seq<char>> {
    match value {
        Some(s) => if is_blank(s@) {
            None
        } else {
            Some(s@)
        },
        None => None,
    }
}

/// `first` when present, otherwise `second`.
pub open spec fn or_chars(first: Option<Seq<char>>, second: Option<Seq<char>>) -> Option<Seq<char>> {
    match first {
        Some(s) => Some(s),
        None => second,
    }
}

/// The characters of a present value, or the empty string.
pub open spec fn or_empty(value: Option<Seq<char>>) -> Seq<char> {
    match value {
        Some(s) => s,
        None => Seq::empty(),
    }
}

/// The display label: Apple's `accessibilityLabel`, else `shotID`, else
/// `localizedNameKey`, else the id itself.
pub open spec fn label_spec(raw: RawAerialAsset) -> Seq<char> {
    match or_chars(
        nonblank(raw.accessibility_label),
        or_chars(nonblank(raw.shot_id), nonblank(raw.localized_name_key)),
    ) {
        Some(label) => label,
        None => raw.id@,
    }
}

/// The asset a raw entry normalizes to, before the playability check.
pub open spec fn normalized_fields(raw: RawAerialAsset) -> AssetView {
    AssetView {
        id: raw.id@,
        accessibility_label: label_spec(raw),
        time_of_day: match raw.time_of_day {
            Some(t) => clip_tag(t@),
            None => Seq::empty(),
        },
        preview_image: match or_chars(
            nonblank(raw.preview_image),
            nonblank(raw.preview_image_900x580),
        ) {
            Some(p) => trim_chars(p),
            None => Seq::empty(),
        },
        url_1080_sdr: or_empty(nonblank(raw.url_1080_sdr)),
        url_1080_hdr: or_empty(nonblank(raw.url_1080_hdr)),
        url_4k_sdr: or_empty(or_chars(nonblank(raw.url_4k_sdr), nonblank(raw.url_4k_sdr_240fps))),
        url_4k_hdr: or_empty(nonblank(raw.url_4k_hdr)),
    }
}

/// A raw entry as a playable asset, or `None` when its id is blank or it
/// has no URL at all.
pub open spec fn normalize_spec(raw: RawAerialAsset) -> Option<AssetView> {
    let asset = normalized_fields(raw);
    if is_blank(asset.id) || !has_any_url_spec(asset) {
        None
    } else {
        Some(asset)
    }
}

/// The playable assets of a list of raw entries, in order.
pub open spec fn normalize_all_spec(raws: Seq<RawAerialAsset>) -> Seq<AssetView>
    decreases raws.len(),
{
    if raws.len() == 0 {
        Seq::empty()
    } else {
        let rest = normalize_all_spec(raws.drop_last());
        match normalize_spec(raws.last()) {
            Some(a) => rest.push(a),
            None => rest,
        }
    }
}

/// `value` when it is present and not blank.
fn non_empty(value: Option<String>) -> (res: Option<String>)
    ensures
        match res {
            Some(s) => nonblank(value) == Some(s@),
            None => nonblank(value) is None,
        },
{
    match value {
        Some(s) => if str_is_blank(s.as_str()) {
            None
        } else {
            Some(s)
        },
        None => None,
    }
}

/// `first` when present, otherwise `second`.
fn or_else_string(first: Option<String>, second: Option<String>) -> (res: Option<String>)
    ensures
        match res {
            Some(s) => or_chars(
                match first { Some(f) => Some(f@), None => None },
                match second { Some(x) => Some(x@), None => None },
            ) == Some(s@),
            None => first is None && second is None,
        },
{
    match first {
        Some(s) => Some(s),
        None => second,
    }
}

/// The characters of a present value, or a new empty string.
fn unwrap_or_empty(value: Option<String>) -> (res: String)
    ensures
        res@ == or_empty(match value { Some(s) => Some(s@), None => None }),
{
    match value {
        Some(s) => s,
        None => String::new(),
    }
}

impl RawAerialAsset {
    /// Drops entries with no playable URL at all and picks a display label,
    /// preferring Apple's own human-readable one.
    pub fn normalize(self) -> (res: Option<AerialAsset>)
        ensures
            match res {
                Some(a) => normalize_spec(self) == Some(a@),
                None => normalize_spec(self) is None,
            },
    {
        let ghost raw = self;
        let label = match or_else_string(
            non_empty(self.accessibility_label),
            or_else_string(non_empty(self.shot_id), non_empty(self.localized_name_key)),
        ) {
            Some(label) => label,
            None => self.id.clone(),
        };
        let time_of_day = match self.time_of_day {
            Some(value) => time_of_day_tag(value.as_str()),
            None => String::new(),
        };
        let preview_image = match or_else_string(
            non_empty(self.preview_image),
            non_empty(self.preview_image_900x580),
        ) {
            Some(value) => to_owned_string(trim_str(value.as_str())),
            None => String::new(),
        };
        let asset = AerialAsset {
            id: self.id,
            accessibility_label: label,
            time_of_day,
            preview_image,
            url_1080_sdr: unwrap_or_empty(non_empty(self.url_1080_sdr)),
            url_1080_hdr: unwrap_or_empty(non_empty(self.url_1080_hdr)),
            url_4k_sdr: unwrap_or_empty(
                or_else_string(non_empty(self.url_4k_sdr), non_empty(self.url_4k_sdr_240fps)),
            ),
            url_4k_hdr: unwrap_or_empty(non_empty(self.url_4k_hdr)),
        };
        assert(asset@ == normalized_fields(raw));
        if str_is_blank(asset.id.as_str()) || !asset.has_any_url() {
            return None;
        }
        Some(asset)
    }
}

/// Normalizes a whole catalog document: playable entries in order, the
/// version numbers carried over.
pub fn normalize_manifest(raw: RawAerialManifest) -> (res: AerialManifestData)
    ensures
        res.version == raw.version,
        res.initial_asset_count == raw.initial_asset_count,
        asset_views(res.assets@) == normalize_all_spec(raw.assets@),
{
    let ghost all = raw.assets@;
    let mut rest = raw.assets;
    let mut assets: Vec<AerialAsset> = Vec::new();
    let n = rest.len();
    let mut i: usize = 0;
    while i < n
        invariant
            i <= n,
            n == all.len(),
            rest@ == all.subrange(i as int, n as int),
            asset_views(assets@) == normalize_all_spec(all.take(i as int)),
        decreases n - i,
    {
        let entry = rest.remove(0);
        assert(entry == all[i as int]);
        assert(all.take(i + 1).drop_last() =~= all.take(i as int));
        assert(rest@ =~= all.subrange(i + 1, n as int));
        match entry.normalize() {
            Some(a) => {
                assets.push(a);
                assert(asset_views(assets@) =~= asset_views(assets@.drop_last()).push(a@));
            },
            None => {},
        }
        i = i + 1;
    }
    assert(all.take(n as int) =~= all);
    AerialManifestData { version: raw.version, initial_asset_count: raw.initial_asset_count, assets }
}

// ---------------------------------------------------------------------------
// Quality tiers
// ---------------------------------------------------------------------------

/// The tier a quality ordinal asks for (0 = 1080 SDR, 1 = 1080 HDR,
/// 2 = 4K SDR, 3 = 4K HDR; anything else = 1080 SDR).
pub open spec fn preferred_url(a: AssetView, quality: int) -> Seq<char> {
    if quality == 1 {
        a.url_1080_hdr
    } else if quality == 2 {
        a.url_4k_sdr
    } else if quality == 3 {
        a.url_4k_hdr
    } else {
        a.url_1080_sdr
    }
}

/// The first non-empty URL in tier order, or the empty string.
pub open spec fn first_available_url(a: AssetView) -> Seq<char> {
    if a.url_1080_sdr.len() > 0 {
        a.url_1080_sdr
    } else if a.url_1080_hdr.len() > 0 {
        a.url_1080_hdr
    } else if a.url_4k_sdr.len() > 0 {
        a.url_4k_sdr
    } else {
        a.url_4k_hdr
    }
}

/// The URL played at `quality`: the requested tier when the clip has it,
/// otherwise whatever tier it does have.
pub open spec fn quality_url_spec(a: AssetView, quality: int) -> Seq<char> {
    if preferred_url(a, quality).len() > 0 {
        preferred_url(a, quality)
    } else {
        first_available_url(a)
    }
}

/// Selects the download URL for `asset` at the quality ordinal `quality`
/// (0 = 1080 SDR, 1 = 1080 HDR, 2 = 4K SDR, 3 = 4K HDR). A tier the clip
/// lacks falls back to one it has; a clip with no URL at all gives "".
pub fn quality_url(asset: &AerialAsset, quality: i32) -> (res: &str)
    ensures
        res@ == quality_url_spec(asset@, quality as int),
{
    let preferred: &str = if quality == 1 {
        asset.url_1080_hdr.as_str()
    } else if quality == 2 {
        asset.url_4k_sdr.as_str()
    } else if quality == 3 {
        asset.url_4k_hdr.as_str()
    } else {
        asset.url_1080_sdr.as_str()
    };
    if !preferred.is_empty() {
        return preferred;
    }
    if !asset.url_1080_sdr.as_str().is_empty() {
        asset.url_1080_sdr.as_str()
    } else if !asset.url_1080_hdr.as_str().is_empty() {
        asset.url_1080_hdr.as_str()
    } else if !asset.url_4k_sdr.as_str().is_empty() {
        asset.url_4k_sdr.as_str()
    } else {
        asset.url_4k_hdr.as_str()
    }
}

// ---------------------------------------------------------------------------
// Time of day
// ---------------------------------------------------------------------------

/// How a `timeOfDay` value is compared: trimmed, then ASCII lower-cased.
pub open spec fn tag_of(time_of_day: Seq<char>) -> Seq<char> {
    ascii_lower_chars(trim_chars(time_of_day))
}

/// The tags the time-of-day filter knows: `day`, `sunrise`, `night` and
/// `sunset`.
pub open spec fn is_known_tag(tag: Seq<char>) -> bool {
    is_day_tag(tag) || is_night_tag(tag)
}

/// The tag a clip is filed under for Apple's `timeOfDay` value: the value
/// trimmed and lower-cased when that is a known tag, otherwise none (empty),
/// so a value never seen before counts as untagged.
pub open spec fn clip_tag(time_of_day: Seq<char>) -> Seq<char> {
    if is_known_tag(tag_of(time_of_day)) {
        tag_of(time_of_day)
    } else {
        Seq::empty()
    }
}

/// The tag a clip is filed under (see [`clip_tag`]).
fn time_of_day_tag(value: &str) -> (res: String)
    ensures
        res@ == clip_tag(value@),
{
    let tag = ascii_lowercase(trim_str(value));
    let t = tag.as_str();
    if str_equals(t, "day") || str_equals(t, "sunrise") || str_equals(t, "night") || str_equals(
        t,
        "sunset",
    ) {
        tag
    } else {
        String::new()
    }
}

/// Daylight tags: `day` and `sunrise`.
pub open spec fn is_day_tag(tag: Seq<char>) -> bool {
    tag == "day"@ || tag == "sunrise"@
}

/// After-dark tags: `night` and `sunset`.
pub open spec fn is_night_tag(tag: Seq<char>) -> bool {
    tag == "night"@ || tag == "sunset"@
}

/// The tag Apple would give a clip shot at local hour `hour` (taken modulo
/// 24): sunrise 05-07, day 08-17, sunset 18-20, night otherwise.
pub open spec fn bucket_spec(hour: int) -> Seq<char> {
    let h = hour % 24;
    if 5 <= h && h <= 7 {
        "sunrise"@
    } else if 8 <= h && h <= 17 {
        "day"@
    } else if 18 <= h && h <= 20 {
        "sunset"@
    } else {
        "night"@
    }
}

/// Whether a clip tagged `time_of_day` belongs in a playlist filtered with
/// `mode` at local hour `hour`.
pub open spec fn time_of_day_matches_spec(time_of_day: Seq<char>, mode: int, hour: int) -> bool {
    let tag = tag_of(time_of_day);
    if tag.len() == 0 {
        true
    } else if mode == time_filter::DAY {
        is_day_tag(tag)
    } else if mode == time_filter::NIGHT {
        is_night_tag(tag)
    } else if mode == time_filter::AUTO {
        let bucket = bucket_spec(hour);
        tag == bucket || (is_day_tag(bucket) && is_day_tag(tag)) || (!is_day_tag(bucket)
            && is_night_tag(tag))
    } else {
        true
    }
}

/// `hour` modulo 24, in 0..24.
fn hour_of_day(hour: i32) -> (res: i64)
    ensures
        res == (hour as int) % 24,
        0 <= res < 24,
{
    let h = hour as i64;
    if h >= 0 {
        h % 24
    } else {
        let m = (-h) % 24;
        proof {
            assert((hour as int) % 24 == (if m == 0 { 0 } else { 24 - m })) by (nonlinear_arith)
                requires
                    h == hour as int,
                    h < 0,
                    m == (-h) % 24,
            {
                let q = (-h) / 24;
                assert(-h == 24 * q + m);
                assert(h == 24 * (-q) + (-m));
                if m != 0 {
                    assert(h == 24 * (-q - 1) + (24 - m));
                }
            }
        }
        if m == 0 {
            0
        } else {
            24 - m
        }
    }
}

/// Maps the local hour to the tag Apple would give a clip shot then.
fn bucket_for_hour(hour: i32) -> (res: &'static str)
    ensures
        res@ == bucket_spec(hour as int),
{
    let h = hour_of_day(hour);
    if 5 <= h && h <= 7 {
        "sunrise"
    } else if 8 <= h && h <= 17 {
        "day"
    } else if 18 <= h && h <= 20 {
        "sunset"
    } else {
        "night"
    }
}

/// Whether `time_of_day` (an [`AerialAsset::time_of_day`] value) belongs in a
/// playlist filtered with `mode` (see [`time_filter`]) at local hour `hour`.
/// Untagged clips and unknown modes always match.
pub fn time_of_day_matches(time_of_day: &str, mode: i32, hour: i32) -> (res: bool)
    ensures
        res == time_of_day_matches_spec(time_of_day@, mode as int, hour as int),
{
    let tag = ascii_lowercase(trim_str(time_of_day));
    let tag = tag.as_str();
    if tag.is_empty() {
        return true;
    }
    let is_day = str_equals(tag, "day") || str_equals(tag, "sunrise");
    let is_night = str_equals(tag, "night") || str_equals(tag, "sunset");
    if mode == time_filter::DAY {
        is_day
    } else if mode == time_filter::NIGHT {
        is_night
    } else if mode == time_filter::AUTO {
        let bucket = bucket_for_hour(hour);
        let bucket_is_day = str_equals(bucket, "day") || str_equals(bucket, "sunrise");
        str_equals(tag, bucket) || (bucket_is_day && is_day) || (!bucket_is_day && is_night)
    } else {
        true
    }
}

/// The assets of `assets` that match the filter, in order.
pub open spec fn matching_assets(assets: Seq<AssetView>, mode: int, hour: int) -> Seq<AssetView>
    decreases assets.len(),
{
    if assets.len() == 0 {
        Seq::empty()
    } else {
        let rest = matching_assets(assets.drop_last(), mode, hour);
        if time_of_day_matches_spec(assets.last().time_of_day, mode, hour) {
            rest.push(assets.last())
        } else {
            rest
        }
    }
}

/// The playlist after the time-of-day filter: everything under `ALL`, and
/// everything as well when the filter would leave nothing to play.
pub open spec fn filter_by_time_of_day_spec(assets: Seq<AssetView>, mode: int, hour: int) -> Seq<
    AssetView,
> {
    if mode == time_filter::ALL || matching_assets(assets, mode, hour).len() == 0 {
        assets
    } else {
        matching_assets(assets, mode, hour)
    }
}

/// Applies [`time_of_day_matches`] to a whole catalog, keeping the unfiltered
/// list if the filter would leave nothing to play.
pub fn filter_by_time_of_day(assets: Vec<AerialAsset>, mode: i32, hour: i32) -> (res: Vec<
    AerialAsset,
>)
    ensures
        asset_views(res@) == filter_by_time_of_day_spec(
            asset_views(assets@),
            mode as int,
            hour as int,
        ),
{
    if mode == time_filter::ALL {
        return assets;
    }
    let mut filtered: Vec<AerialAsset> = Vec::new();
    let n = assets.len();
    for i in 0..n
        invariant
            n == assets.len(),
            asset_views(filtered@) == matching_assets(
                asset_views(assets@).take(i as int),
                mode as int,
                hour as int,
            ),
    {
        let ghost prefix = asset_views(assets@).take(i as int);
        let ghost next = asset_views(assets@).take(i + 1);
        assert(next.drop_last() =~= prefix);
        assert(next.last() == assets@[i as int]@);
        if time_of_day_matches(assets[i].time_of_day.as_str(), mode, hour) {
            let a = assets[i].clone();
            filtered.push(a);
            assert(asset_views(filtered@) =~= asset_views(filtered@.drop_last()).push(a@));
        }
    }
    assert(asset_views(assets@).take(n as int) =~= asset_views(assets@));
    if filtered.is_empty() {
        return assets;
    }
    filtered
}

} // verus!

verus! {

// ---------------------------------------------------------------------------
// Liveness and fallback
// ---------------------------------------------------------------------------

/// The URLs whose liveness is checked: each asset's URL at `quality`.
pub fn liveness_urls(assets: &Vec<AerialAsset>, quality: i32) -> (res: Vec<String>)
    ensures
        res@.len() == assets@.len(),
        forall|i: int|
            0 <= i < assets@.len() ==> #[trigger] res@[i]@ == quality_url_spec(
                assets@[i]@,
                quality as int,
            ),
{
    let mut urls: Vec<String> = Vec::new();
    let n = assets.len();
    for i in 0..n
        invariant
            n == assets@.len(),
            urls@.len() == i,
            forall|j: int|
                0 <= j < i ==> #[trigger] urls@[j]@ == quality_url_spec(assets@[j]@, quality as int),
    {
        urls.push(to_owned_string(quality_url(&assets[i], quality)));
    }
    urls
}

/// The first `n` assets whose liveness flag is set, in order.
pub open spec fn alive_prefix(assets: Seq<AssetView>, alive: Seq<bool>, n: int) -> Seq<AssetView>
    decreases n,
{
    if n <= 0 {
        Seq::empty()
    } else {
        let rest = alive_prefix(assets, alive, n - 1);
        if alive[n - 1] {
            rest.push(assets[n - 1])
        } else {
            rest
        }
    }
}

/// The catalog after the liveness check: the assets whose flag is set
/// (flags are paired with assets in order), or every asset when that would
/// leave nothing.
pub open spec fn keep_live_spec(assets: Seq<AssetView>, alive: Seq<bool>) -> Seq<AssetView> {
    let n = if assets.len() <= alive.len() {
        assets.len() as int
    } else {
        alive.len() as int
    };
    let kept = alive_prefix(assets, alive, n);
    if kept.len() == 0 {
        assets
    } else {
        kept
    }
}

/// Drops the assets whose liveness check reported them gone (`alive[i]` is
/// the result for `assets[i]`), keeping the whole catalog when every one
/// failed.
pub fn keep_live_assets(assets: Vec<AerialAsset>, alive: &[bool]) -> (res: Vec<AerialAsset>)
    ensures
        asset_views(res@) == keep_live_spec(asset_views(assets@), alive@),
{
    let n = if assets.len() <= alive.len() {
        assets.len()
    } else {
        alive.len()
    };
    let mut live: Vec<AerialAsset> = Vec::new();
    for i in 0..n
        invariant
            n <= assets@.len(),
            n <= alive@.len(),
            asset_views(live@) == alive_prefix(asset_views(assets@), alive@, i as int),
    {
        if alive[i] {
            let a = assets[i].clone();
            live.push(a);
            assert(asset_views(live@) =~= asset_views(live@.drop_last()).push(a@));
        }
    }
    if live.is_empty() {
        return assets;
    }
    live
}

/// Where the search over the catalog's mirrors stands. Mirrors are tried in
/// order until one yields a catalog.
pub enum MirrorSearch {
    /// Still looking; `last_error` is why the last mirror tried failed
    /// (`NoSource` before any was tried).
    Searching { last_error: ManifestError },
    /// A mirror yielded this catalog.
    Found(AerialManifestData),
}

/// The search after one more mirror's outcome: a catalog ends it, an error
/// becomes the one reported if no later mirror does better. A finished
/// search stays as it is.
pub open spec fn mirror_step(search: MirrorSearch, outcome: Result<AerialManifestData, ManifestError>) -> MirrorSearch {
    match search {
        MirrorSearch::Found(d) => MirrorSearch::Found(d),
        MirrorSearch::Searching { .. } => match outcome {
            Ok(d) => MirrorSearch::Found(d),
            Err(e) => MirrorSearch::Searching { last_error: e },
        },
    }
}

/// The search after the outcomes of `outcomes`, in order.
pub open spec fn mirror_steps(
    search: MirrorSearch,
    outcomes: Seq<Result<AerialManifestData, ManifestError>>,
) -> MirrorSearch
    decreases outcomes.len(),
{
    if outcomes.len() == 0 {
        search
    } else {
        mirror_steps(mirror_step(search, outcomes[0]), outcomes.drop_first())
    }
}

/// What a finished search answers: the catalog found, or the last error.
pub open spec fn mirror_answer(search: MirrorSearch) -> Result<AerialManifestData, ManifestError> {
    match search {
        MirrorSearch::Found(d) => Ok(d),
        MirrorSearch::Searching { last_error } => Err(last_error),
    }
}

/// The answer for mirrors that gave `outcomes` in order: the first catalog;
/// when there is none, the last mirror's error; `NoSource` for no mirror.
pub open spec fn first_catalog(outcomes: Seq<Result<AerialManifestData, ManifestError>>) -> Result<
    AerialManifestData,
    ManifestError,
>
    decreases outcomes.len(),
{
    if outcomes.len() == 0 {
        Err(ManifestError::NoSource)
    } else if outcomes[0] is Ok || outcomes.len() == 1 {
        outcomes[0]
    } else {
        first_catalog(outcomes.drop_first())
    }
}

impl MirrorSearch {
    /// A search that has tried nothing yet.
    pub fn start() -> (res: Self)
        ensures
            res == (MirrorSearch::Searching { last_error: ManifestError::NoSource }),
    {
        MirrorSearch::Searching { last_error: ManifestError::NoSource }
    }

    /// True once a mirror has yielded a catalog: no further mirror is tried.
    pub fn is_done(&self) -> (res: bool)
        ensures
            res == (self is Found),
    {
        match self {
            MirrorSearch::Found(_) => true,
            MirrorSearch::Searching { .. } => false,
        }
    }

    /// Records what the next mirror gave (see [`mirror_step`]).
    pub fn record(self, outcome: Result<AerialManifestData, ManifestError>) -> (res: Self)
        ensures
            res == mirror_step(self, outcome),
    {
        match self {
            MirrorSearch::Found(d) => MirrorSearch::Found(d),
            MirrorSearch::Searching { .. } => match outcome {
                Ok(d) => MirrorSearch::Found(d),
                Err(e) => MirrorSearch::Searching { last_error: e },
            },
        }
    }

    /// The search's answer (see [`mirror_answer`]).
    pub fn finish(self) -> (res: Result<AerialManifestData, ManifestError>)
        ensures
            res == mirror_answer(self),
    {
        match self {
            MirrorSearch::Found(d) => Ok(d),
            MirrorSearch::Searching { last_error } => Err(last_error),
        }
    }
}

/// The fetched catalog when it lists at least one usable asset; `None` means
/// the bundled snapshot is used instead.
pub fn usable_catalog(fetched: Result<AerialManifestData, ManifestError>) -> (res: Option<
    AerialManifestData,
>)
    ensures
        match fetched {
            Ok(data) => if data.assets@.len() > 0 {
                res == Some(data)
            } else {
                res is None
            },
            Err(_) => res is None,
        },
{
    match fetched {
        Ok(data) => if data.assets.len() > 0 {
            Some(data)
        } else {
            None
        },
        Err(_) => None,
    }
}

} // verus!
