//! Properties that hold across the library's operations.
use vstd::prelude::*;

use crate::archive::{
    entries_name_bytes, final_segment, lemma_segment_start_bounds, names_entries_member,
    segment_start, DOT, SLASH,
};
use crate::cache::{
    allowed_in_spec, cache_file_name, disk_listing, index_after_scan, newest_listed, DiskFile, claim_allowed, claim_outcome, claim_settled, restored,
    DownloadClaim, elapsed_since, is_protected, join_path,
    lru_eviction, remove_all, sum_sizes, total_size, valid_cache_id, victim_ids,
    CacheView, EntryView,
};
use crate::assoc::map_of;
use crate::manifest::{
    bucket_spec, filter_by_time_of_day_spec, is_known_tag, first_available_url, has_any_url_spec, is_day_tag,
    is_night_tag, keep_live_spec, alive_prefix, matching_assets, normalize_spec, preferred_url,
    quality_url_spec, tag_of, first_catalog, mirror_answer, mirror_steps, AerialManifestData,
    ManifestError, MirrorSearch, time_of_day_matches_spec, time_filter, AssetView, RawAerialAsset,
};
use crate::qml::{role_field, role_name, ROLE_COUNT};
use crate::text::is_blank;

verus! {

// ---------------------------------------------------------------------------
// The time-of-day filter
// ---------------------------------------------------------------------------

/// The clock hour only matters in "match the clock" mode: in every other
/// mode a clip matches at every hour or at none.
pub proof fn law_hour_matters_only_in_auto(time_of_day: Seq<char>, mode: int, h1: int, h2: int)
    requires
        mode != time_filter::AUTO,
    ensures
        time_of_day_matches_spec(time_of_day, mode, h1) == time_of_day_matches_spec(
            time_of_day,
            mode,
            h2,
        ),
{
}

/// An untagged clip matches every filter at every hour, and an unknown
/// mode hides nothing.
pub proof fn law_untagged_and_unknown_modes_match(time_of_day: Seq<char>, mode: int, hour: int)
    requires
        tag_of(time_of_day).len() == 0 || !(mode == time_filter::DAY || mode == time_filter::NIGHT
            || mode == time_filter::AUTO),
    ensures
        time_of_day_matches_spec(time_of_day, mode, hour),
{
}

/// Twilight goes with its half of the day: `day` and `sunrise` clips are
/// daylight clips and never night clips; `night` and `sunset` clips the
/// reverse.
pub proof fn law_twilight_grouping(time_of_day: Seq<char>, hour: int)
    ensures
        is_day_tag(tag_of(time_of_day)) ==> time_of_day_matches_spec(
            time_of_day,
            time_filter::DAY as int,
            hour,
        ) && !time_of_day_matches_spec(time_of_day, time_filter::NIGHT as int, hour),
        is_night_tag(tag_of(time_of_day)) ==> time_of_day_matches_spec(
            time_of_day,
            time_filter::NIGHT as int,
            hour,
        ) && !time_of_day_matches_spec(time_of_day, time_filter::DAY as int, hour),
{
    reveal_strlit("day");
    reveal_strlit("sunrise");
    reveal_strlit("night");
    reveal_strlit("sunset");
}

/// "Match the clock" uses fixed hours: from 05:00 to 17:59 (hours taken
/// modulo 24) it selects exactly the daylight clips, otherwise exactly the
/// after-dark clips.
pub proof fn law_auto_follows_the_clock(time_of_day: Seq<char>, hour: int)
    ensures
        time_of_day_matches_spec(time_of_day, time_filter::AUTO as int, hour) == (if 5 <= hour % 24
            <= 17 {
            time_of_day_matches_spec(time_of_day, time_filter::DAY as int, hour)
        } else {
            time_of_day_matches_spec(time_of_day, time_filter::NIGHT as int, hour)
        }),
{
    reveal_strlit("day");
    reveal_strlit("sunrise");
    reveal_strlit("night");
    reveal_strlit("sunset");
    assert("day"@.len() == 3 && "sunrise"@.len() == 7 && "night"@.len() == 5 && "sunset"@.len()
        == 6);
    let b = bucket_spec(hour);
    assert(is_day_tag(b) <==> 5 <= hour % 24 <= 17);
}

/// The filtered clips, in order.
proof fn lemma_matching_assets_members(assets: Seq<AssetView>, mode: int, hour: int)
    ensures
        forall|k: int|
            0 <= k < matching_assets(assets, mode, hour).len() ==> assets.contains(
                #[trigger] matching_assets(assets, mode, hour)[k],
            ) && time_of_day_matches_spec(
                matching_assets(assets, mode, hour)[k].time_of_day,
                mode,
                hour,
            ),
        matching_assets(assets, mode, hour).len() <= assets.len(),
    decreases assets.len(),
{
    if assets.len() > 0 {
        let rest = assets.drop_last();
        lemma_matching_assets_members(rest, mode, hour);
        let m = matching_assets(assets, mode, hour);
        assert forall|k: int| 0 <= k < m.len() implies assets.contains(#[trigger] m[k]) by {
            let r = matching_assets(rest, mode, hour);
            if k < r.len() {
                assert(m[k] == r[k]);
                let j = choose|j: int| 0 <= j < rest.len() && rest[j] == r[k];
                assert(assets[j] == rest[j]);
            } else {
                assert(m[k] == assets[assets.len() - 1]);
            }
        }
    }
}

/// The time-of-day filter never leaves a non-empty playlist empty, only
/// ever keeps clips from the catalog, and keeps nothing that fails the
/// filter unless it gave up and kept the whole catalog.
pub proof fn law_filter_never_empties_the_playlist(assets: Seq<AssetView>, mode: int, hour: int)
    ensures
        assets.len() > 0 ==> filter_by_time_of_day_spec(assets, mode, hour).len() > 0,
        forall|k: int|
            0 <= k < filter_by_time_of_day_spec(assets, mode, hour).len() ==> assets.contains(
                #[trigger] filter_by_time_of_day_spec(assets, mode, hour)[k],
            ),
        filter_by_time_of_day_spec(assets, mode, hour) == assets || forall|k: int|
            0 <= k < filter_by_time_of_day_spec(assets, mode, hour).len()
                ==> time_of_day_matches_spec(
                #[trigger] filter_by_time_of_day_spec(assets, mode, hour)[k].time_of_day,
                mode,
                hour,
            ),
{
    lemma_matching_assets_members(assets, mode, hour);
    let r = filter_by_time_of_day_spec(assets, mode, hour);
    if r != assets {
        assert forall|k: int| 0 <= k < r.len() implies time_of_day_matches_spec(
            #[trigger] r[k].time_of_day,
            mode,
            hour,
        ) by {
            assert(r[k] == matching_assets(assets, mode, hour)[k]);
        }
    }
    assert forall|k: int| 0 <= k < r.len() implies assets.contains(#[trigger] r[k]) by {
        if r == assets {
            assert(assets[k] == r[k]);
        } else {
            assert(r[k] == matching_assets(assets, mode, hour)[k]);
        }
    }
}

// ---------------------------------------------------------------------------
// The catalog
// ---------------------------------------------------------------------------

/// Every asset that normalization lets through can be played and shown: its
/// id and label are not blank, it has at least one URL, and its time of day
/// is one the filter knows or empty (untagged).
pub proof fn law_normalized_assets_are_playable(raw: RawAerialAsset)
    ensures
        normalize_spec(raw) matches Some(a) ==> !is_blank(a.id) && !is_blank(
            a.accessibility_label,
        ) && has_any_url_spec(a) && (a.time_of_day.len() == 0 || is_known_tag(a.time_of_day)),
{
}

/// A clip with any URL always gets a non-empty URL, whatever quality is
/// asked for; the asked-for tier is used when the clip has it; and the URL
/// is always one of the clip's own.
pub proof fn law_quality_url_falls_back(a: AssetView, quality: int)
    ensures
        has_any_url_spec(a) <==> quality_url_spec(a, quality).len() > 0,
        preferred_url(a, quality).len() > 0 ==> quality_url_spec(a, quality) == preferred_url(
            a,
            quality,
        ),
        quality_url_spec(a, quality) == a.url_1080_sdr || quality_url_spec(a, quality)
            == a.url_1080_hdr || quality_url_spec(a, quality) == a.url_4k_sdr || quality_url_spec(
            a,
            quality,
        ) == a.url_4k_hdr,
{
}

/// The clips kept by `alive_prefix` are clips of the catalog.
proof fn lemma_alive_prefix_members(assets: Seq<AssetView>, alive: Seq<bool>, n: int)
    requires
        n <= assets.len(),
        n <= alive.len(),
    ensures
        forall|k: int|
            0 <= k < alive_prefix(assets, alive, n).len() ==> assets.contains(
                #[trigger] alive_prefix(assets, alive, n)[k],
            ),
    decreases n,
{
    if n > 0 {
        lemma_alive_prefix_members(assets, alive, n - 1);
        let r = alive_prefix(assets, alive, n - 1);
        let m = alive_prefix(assets, alive, n);
        assert forall|k: int| 0 <= k < m.len() implies assets.contains(#[trigger] m[k]) by {
            if k < r.len() {
                assert(m[k] == r[k]);
            } else {
                assert(m[k] == assets[n - 1]);
            }
        }
    }
}

/// The liveness check never empties a non-empty catalog and only ever keeps
/// clips of the catalog.
pub proof fn law_liveness_never_empties_the_catalog(assets: Seq<AssetView>, alive: Seq<bool>)
    ensures
        assets.len() > 0 ==> keep_live_spec(assets, alive).len() > 0,
        forall|k: int|
            0 <= k < keep_live_spec(assets, alive).len() ==> assets.contains(
                #[trigger] keep_live_spec(assets, alive)[k],
            ),
{
    let n = if assets.len() <= alive.len() {
        assets.len() as int
    } else {
        alive.len() as int
    };
    lemma_alive_prefix_members(assets, alive, n);
    let r = keep_live_spec(assets, alive);
    assert forall|k: int| 0 <= k < r.len() implies assets.contains(#[trigger] r[k]) by {
        if r == assets {
            assert(assets[k] == r[k]);
        }
    }
}

/// The mirrors are searched in order and the first catalog wins: fed the
/// outcomes of the mirrors from a fresh start, the search answers the first
/// catalog any mirror gave, otherwise the last mirror's error, and
/// `NoSource` when there was no mirror.
pub proof fn law_first_mirror_with_a_catalog_wins(outcomes: Seq<Result<AerialManifestData, ManifestError>>)
    ensures
        mirror_answer(
            mirror_steps(MirrorSearch::Searching { last_error: ManifestError::NoSource }, outcomes),
        ) == first_catalog(outcomes),
{
    lemma_mirror_steps(ManifestError::NoSource, outcomes);
}

/// A search still looking with `last_error` answers, after `outcomes`, the
/// first catalog among them, or the last error (its own when there are
/// none).
proof fn lemma_mirror_steps(last_error: ManifestError, outcomes: Seq<Result<AerialManifestData, ManifestError>>)
    ensures
        mirror_answer(mirror_steps(MirrorSearch::Searching { last_error }, outcomes)) == if outcomes.len()
            == 0 {
            Err(last_error)
        } else {
            first_catalog(outcomes)
        },
    decreases outcomes.len(),
{
    if outcomes.len() > 0 {
        let rest = outcomes.drop_first();
        match outcomes[0] {
            Ok(d) => {
                lemma_found_stays(d, rest);
            },
            Err(e) => {
                lemma_mirror_steps(e, rest);
            },
        }
    }
}

/// A finished search ignores later outcomes.
proof fn lemma_found_stays(d: AerialManifestData, outcomes: Seq<Result<AerialManifestData, ManifestError>>)
    ensures
        mirror_steps(MirrorSearch::Found(d), outcomes) == MirrorSearch::Found(d),
    decreases outcomes.len(),
{
    if outcomes.len() > 0 {
        lemma_found_stays(d, outcomes.drop_first());
    }
}

// ---------------------------------------------------------------------------
// The resource tar
// ---------------------------------------------------------------------------

/// Where the final segment of `dir/name` starts, for a name without
/// separators.
proof fn lemma_segment_start_in_name(path: Seq<u8>, start: int, end: int)
    requires
        0 < start <= end <= path.len(),
        path[start - 1] == SLASH,
        forall|i: int| start <= i < end ==> path[i] != SLASH,
    ensures
        segment_start(path, end) == start,
    decreases end - start,
{
    if end > start {
        lemma_segment_start_in_name(path, start, end - 1);
    }
}

/// The catalog member is found by file name in whatever directory of the
/// archive it sits: `entries.json` itself, and `<dir>/entries.json` for any
/// `<dir>`, name the catalog.
pub proof fn law_entries_member_found_in_any_directory(dir: Seq<u8>)
    ensures
        names_entries_member(entries_name_bytes()),
        names_entries_member(dir + seq![SLASH] + entries_name_bytes()),
{
    let name = entries_name_bytes();
    assert(name =~= seq![0x65u8, 0x6e, 0x74, 0x72, 0x69, 0x65, 0x73, 0x2e, 0x6a, 0x73, 0x6f, 0x6e])
        by {
        reveal_strlit("entries.json");
        vstd::string::is_ascii_spec_bytes("entries.json");
        assert(vstd::string::is_ascii("entries.json"));
    }
    // Bare name: one segment, all of it.
    assert forall|i: int| 0 <= i < name.len() implies name[i] != SLASH by {}
    lemma_segment_start_bare(name, name.len() as int);
    assert(name.subrange(0, name.len() as int) =~= name);
    // In a directory.
    let path = dir + seq![SLASH] + name;
    let start: int = dir.len() as int + 1;
    assert(path[start - 1] == SLASH);
    assert forall|i: int| start <= i < path.len() implies path[i] != SLASH by {
        assert(path[i] == name[i - start]);
    }
    lemma_segment_start_in_name(path, start, path.len() as int);
    assert(path.subrange(start, path.len() as int) =~= name);
}

/// A name without separators is one segment from its first byte.
proof fn lemma_segment_start_bare(path: Seq<u8>, end: int)
    requires
        0 <= end <= path.len(),
        forall|i: int| 0 <= i < end ==> path[i] != SLASH,
    ensures
        segment_start(path, end) == 0,
    decreases end,
{
    if end > 0 {
        lemma_segment_start_bare(path, end - 1);
    }
}

// ---------------------------------------------------------------------------
// The cache
// ---------------------------------------------------------------------------

/// An accepted id stays inside the cache directory: its file's path is the
/// directory, a separator when needed, and a file name that is the id (which
/// holds no separator), a dot and the extension.
pub proof fn law_valid_ids_stay_in_the_directory(dir: Seq<char>, id: Seq<char>, extension: Seq<char>)
    requires
        valid_cache_id(id),
    ensures
        join_path(dir, cache_file_name(id, extension)) == (if dir.len() > 0 && dir.last()
            != '/' {
            dir + seq!['/']
        } else {
            dir
        }) + id + seq!['.'] + extension,
        forall|i: int| 0 <= i < id.len() ==> id[i] != '/' && id[i] != '\\',
{
    assert forall|i: int| 0 <= i < id.len() implies id[i] != '/' && id[i] != '\\' by {
        if id[i] == '/' {
            assert(id.contains('/'));
        }
        if id[i] == '\\' {
            assert(id.contains('\\'));
        }
    }
    if dir.len() > 0 && dir.last() != '/' {
        assert(join_path(dir, cache_file_name(id, extension)) =~= dir + seq!['/'] + id + seq!['.']
            + extension);
    } else {
        assert(join_path(dir, cache_file_name(id, extension)) =~= dir + id + seq!['.'] + extension);
    }
}

/// Eviction never removes a protected id, and a file it keeps is unchanged.
pub proof fn law_eviction_spares_protected(
    before: CacheView,
    protected: Seq<&str>,
    victims: Seq<(String, String)>,
    after: CacheView,
    id: Seq<char>,
)
    requires
        lru_eviction(before, protected, victims, after),
        map_of(before.entries).contains_key(id),
    ensures
        is_protected(protected, id) ==> map_of(after.entries).contains_key(id),
        map_of(after.entries).contains_key(id) ==> map_of(after.entries)[id] == map_of(
            before.entries,
        )[id],
{
    crate::cache::lemma_remove_all(map_of(before.entries), victim_ids(victims), id);
    if is_protected(protected, id) && victim_ids(victims).contains(id) {
        let k = choose|k: int| 0 <= k < victim_ids(victims).len() && victim_ids(victims)[k] == id;
        assert(!is_protected(protected, victim_ids(victims)[k]));
    }
}

/// Eviction goes oldest first: if the most recently played unprotected file
/// is evicted, every file that remains is protected.
pub proof fn law_newest_unprotected_survives(
    before: CacheView,
    protected: Seq<&str>,
    victims: Seq<(String, String)>,
    after: CacheView,
    newest: Seq<char>,
)
    requires
        lru_eviction(before, protected, victims, after),
        map_of(before.entries).contains_key(newest),
        !is_protected(protected, newest),
        forall|id: Seq<char>|
            #[trigger] map_of(before.entries).contains_key(id) && id != newest && !is_protected(
                protected,
                id,
            ) ==> map_of(before.entries)[id].last_played < map_of(
                before.entries,
            )[newest].last_played,
    ensures
        !map_of(after.entries).contains_key(newest) ==> forall|id: Seq<char>|
            #[trigger] map_of(after.entries).contains_key(id) ==> is_protected(protected, id),
{
    let index = map_of(before.entries);
    let ids = victim_ids(victims);
    let kept = map_of(after.entries);
    if !kept.contains_key(newest) {
        crate::cache::lemma_remove_all(index, ids, newest);
        let k = choose|k: int| 0 <= k < ids.len() && ids[k] == newest;
        assert forall|id: Seq<char>| #[trigger] kept.contains_key(id) implies is_protected(
            protected,
            id,
        ) by {
            crate::cache::lemma_remove_all(index, ids, id);
            if !is_protected(protected, id) {
                assert(index[ids[k]].last_played <= kept[id].last_played);
                assert(id != newest);
            }
        }
    }
}

/// A download that fits the budget is a cache hit afterwards: once it is
/// recorded, eviction evicts nothing, and the id is cached with the file
/// that was recorded.
pub proof fn law_download_within_budget_is_a_hit(
    before: CacheView,
    id: Seq<char>,
    file: EntryView,
    recorded: CacheView,
    protected: Seq<&str>,
    victims: Seq<(String, String)>,
    after: CacheView,
)
    requires
        map_of(recorded.entries) == map_of(before.entries).insert(id, file),
        lru_eviction(recorded, protected, victims, after),
        total_size(recorded.entries) <= recorded.max_bytes,
    ensures
        victims.len() == 0,
        map_of(after.entries) == map_of(recorded.entries),
        map_of(after.entries).contains_key(id),
        map_of(after.entries)[id] == file,
{
    let index = map_of(recorded.entries);
    let ids = victim_ids(victims);
    if victims.len() > 0 {
        assert(sum_sizes(index, ids, 0) == 0);
        assert(total_size(recorded.entries) - sum_sizes(index, ids, 0) > recorded.max_bytes);
    }
    assert(ids.len() == 0);
    assert(remove_all(index, ids) == index);
}

// ---------------------------------------------------------------------------
// The download window
// ---------------------------------------------------------------------------

/// The download window survives a restart: once the window is moved forward
/// to the newest file found on disk (`newest`, non-zero), no claim succeeds
/// until `interval_ns` has passed since that file was written.
pub proof fn law_restart_keeps_the_window(window: u64, newest: u64, now: u64, interval_ns: u64)
    requires
        newest > 0,
        interval_ns > 0,
        elapsed_since(newest, now) < interval_ns,
    ensures
        !claim_allowed(
            if newest > window {
                newest
            } else {
                window
            },
            now,
            interval_ns,
        ),
        allowed_in_spec(
            if newest > window {
                newest
            } else {
                window
            },
            now,
            interval_ns,
        ) > 0,
{
}

/// One claim per window: right after a claim at `now1` succeeds (with a
/// non-zero interval and clock), a second claim fails until `interval_ns`
/// has passed.
pub proof fn law_one_claim_per_window(window: u64, now1: u64, now2: u64, interval_ns: u64)
    requires
        claim_allowed(window, now1, interval_ns),
        interval_ns > 0,
        now1 > 0,
        elapsed_since(now1, now2) < interval_ns,
    ensures
        !claim_allowed(now1, now2, interval_ns),
{
}

/// A fresh cache (window 0) and a zero interval always admit a claim.
pub proof fn law_first_claim_always_wins(window: u64, now: u64, interval_ns: u64)
    requires
        window == 0 || interval_ns == 0,
    ensures
        claim_allowed(window, now, interval_ns),
        allowed_in_spec(window, now, interval_ns) == 0,
{
}

/// An attempt that downloads nothing costs nothing: when a claim at `now1`
/// moved the window from `before` to `claimed`, and the attempt ends in a
/// cache hit or a failure, settling it (at any later clock reading `now2`)
/// puts the cache back as it was before the claim, provided no other claim
/// moved the window in between.
pub proof fn law_attempt_without_download_costs_nothing(
    before: CacheView,
    claimed: CacheView,
    claim: DownloadClaim,
    after: CacheView,
    now1: u64,
    now2: u64,
    interval_ns: u64,
    allowed: bool,
)
    requires
        claim_outcome(before, claimed, now1, interval_ns, Some(claim)),
        claim_settled(claimed, after, now2, claim, false, interval_ns, allowed),
    ensures
        after == before,
{
}

/// A genuine download keeps the window it claimed: after a download
/// claimed at `now1` and settled, no claim succeeds until `interval_ns`
/// has passed since `now1`.
pub proof fn law_download_keeps_its_window(
    before: CacheView,
    claimed: CacheView,
    claim: DownloadClaim,
    after: CacheView,
    now1: u64,
    now2: u64,
    now3: u64,
    interval_ns: u64,
    allowed: bool,
)
    requires
        claim_outcome(before, claimed, now1, interval_ns, Some(claim)),
        claim_settled(claimed, after, now2, claim, true, interval_ns, allowed),
        now1 > 0,
        interval_ns > 0,
        elapsed_since(now1, now3) < interval_ns,
    ensures
        after == claimed,
        !claim_allowed(after.download_window, now3, interval_ns),
{
}

/// Handing a claim back never undoes a later claim: once another claim (at
/// a different clock reading) has moved the window, restoring the first
/// changes nothing.
pub proof fn law_restore_never_rewinds_a_later_claim(
    before: CacheView,
    claim: DownloadClaim,
    later: CacheView,
    later_claim: DownloadClaim,
    now: u64,
    interval_ns: u64,
)
    requires
        claim_outcome(before, later, now, interval_ns, Some(later_claim)),
        claim.claimed_at != now,
    ensures
        restored(later, claim) == later,
{
}

/// The wait reported to the UI is zero exactly when a claim would succeed.
pub proof fn law_allowed_in_agrees_with_claims(window: u64, now: u64, interval_ns: u64)
    ensures
        (allowed_in_spec(window, now, interval_ns) == 0) == claim_allowed(window, now, interval_ns),
        allowed_in_spec(window, now, interval_ns) <= interval_ns,
{
}

} // verus!

verus! {

// ---------------------------------------------------------------------------
// Rebuilding the index from the cache directory
// ---------------------------------------------------------------------------

/// True when the disk file `f` is indexed under `id` (see [`disk_listing`]).
pub open spec fn listed_under(f: DiskFile, extension: Seq<char>, now: u64, id: Seq<char>) -> bool {
    disk_listing(f, extension, now) matches Some(p) && p.0 == id
}

/// Which ids a directory scan leaves cached: those cached before, and those
/// that some file named `<id>.<extension>` names.
proof fn lemma_scan_keys(
    index: Map<Seq<char>, EntryView>,
    files: Seq<DiskFile>,
    extension: Seq<char>,
    now: u64,
    id: Seq<char>,
)
    ensures
        index_after_scan(index, files, extension, now).contains_key(id) <==> (index.contains_key(id)
            || exists|k: int| 0 <= k < files.len() && #[trigger] listed_under(files[k], extension, now, id)),
    decreases files.len(),
{
    if files.len() > 0 {
        let rest = files.drop_last();
        let last = files.len() - 1;
        lemma_scan_keys(index, rest, extension, now, id);
        let before = index_after_scan(index, rest, extension, now);
        let after = index_after_scan(index, files, extension, now);
        assert(files.last() == files[last]);
        match disk_listing(files[last], extension, now) {
            Some(p) => {
                assert(after == before.insert(p.0, p.1));
                if p.0 == id {
                    assert(listed_under(files[last], extension, now, id));
                    assert(after.contains_key(id));
                } else {
                    assert(!listed_under(files[last], extension, now, id));
                    assert(after.contains_key(id) == before.contains_key(id));
                }
            },
            None => {
                assert(after == before);
                assert(!listed_under(files[last], extension, now, id));
            },
        }
        if exists|k: int| 0 <= k < files.len() && #[trigger] listed_under(files[k], extension, now, id) {
            let k = choose|k: int| 0 <= k < files.len() && #[trigger] listed_under(files[k], extension, now, id);
            if k < last {
                assert(rest[k] == files[k]);
                assert(listed_under(rest[k], extension, now, id));
            }
        }
        if exists|k: int| 0 <= k < rest.len() && #[trigger] listed_under(rest[k], extension, now, id) {
            let k = choose|k: int| 0 <= k < rest.len() && #[trigger] listed_under(rest[k], extension, now, id);
            assert(rest[k] == files[k]);
            assert(listed_under(files[k], extension, now, id));
        }
    }
}

/// An id that no scanned file names keeps its earlier entry.
proof fn lemma_scan_unlisted(
    index: Map<Seq<char>, EntryView>,
    files: Seq<DiskFile>,
    extension: Seq<char>,
    now: u64,
    id: Seq<char>,
)
    requires
        forall|k: int| 0 <= k < files.len() ==> !#[trigger] listed_under(files[k], extension, now, id),
    ensures
        index_after_scan(index, files, extension, now).contains_key(id) == index.contains_key(id),
        index.contains_key(id) ==> index_after_scan(index, files, extension, now)[id] == index[id],
    decreases files.len(),
{
    if files.len() > 0 {
        let rest = files.drop_last();
        assert forall|k: int| 0 <= k < rest.len() implies !#[trigger] listed_under(rest[k], extension, now, id) by {
            assert(rest[k] == files[k]);
        }
        assert(!listed_under(files[files.len() - 1], extension, now, id));
        lemma_scan_unlisted(index, rest, extension, now, id);
    }
}

/// The last scanned file that names an id decides its entry.
proof fn lemma_scan_last_listing(
    index: Map<Seq<char>, EntryView>,
    files: Seq<DiskFile>,
    extension: Seq<char>,
    now: u64,
    id: Seq<char>,
    k: int,
)
    requires
        0 <= k < files.len(),
        listed_under(files[k], extension, now, id),
        forall|j: int| k < j < files.len() ==> !#[trigger] listed_under(files[j], extension, now, id),
    ensures
        index_after_scan(index, files, extension, now)[id] == disk_listing(
            files[k],
            extension,
            now,
        ).unwrap().1,
    decreases files.len(),
{
    let rest = files.drop_last();
    let last = files.len() - 1;
    if k < last {
        assert(!listed_under(files[last], extension, now, id));
        assert(rest[k] == files[k]);
        assert forall|j: int| k < j < rest.len() implies !#[trigger] listed_under(rest[j], extension, now, id) by {
            assert(rest[j] == files[j]);
            assert(!listed_under(files[j], extension, now, id));
        }
        lemma_scan_last_listing(index, rest, extension, now, id, k);
    }
}

/// Scanning the cache directory indexes exactly the files named
/// `<id>.<extension>`: an id is cached afterwards when it was before or some
/// such file names it; the last file that names it decides its entry (path,
/// size and time), and an id no file names keeps its earlier entry. Other
/// files are skipped.
pub proof fn law_scan_indexes_listed_files(
    index: Map<Seq<char>, EntryView>,
    files: Seq<DiskFile>,
    extension: Seq<char>,
    now: u64,
    id: Seq<char>,
)
    ensures
        index_after_scan(index, files, extension, now).contains_key(id) <==> (index.contains_key(id)
            || exists|k: int| 0 <= k < files.len() && #[trigger] listed_under(files[k], extension, now, id)),
        (forall|k: int| 0 <= k < files.len() ==> !#[trigger] listed_under(files[k], extension, now, id))
            ==> (index.contains_key(id) ==> index_after_scan(index, files, extension, now)[id]
            == index[id]),
        forall|k: int|
            0 <= k < files.len() && #[trigger] listed_under(files[k], extension, now, id) && (forall|j: int|
                k < j < files.len() ==> !#[trigger] listed_under(files[j], extension, now, id))
                ==> index_after_scan(index, files, extension, now)[id] == disk_listing(
                files[k],
                extension,
                now,
            ).unwrap().1,
{
    lemma_scan_keys(index, files, extension, now, id);
    if forall|k: int| 0 <= k < files.len() ==> !#[trigger] listed_under(files[k], extension, now, id) {
        lemma_scan_unlisted(index, files, extension, now, id);
    }
    assert forall|k: int|
        0 <= k < files.len() && #[trigger] listed_under(files[k], extension, now, id) && (forall|j: int|
            k < j < files.len() ==> !#[trigger] listed_under(files[j], extension, now, id)) implies
        index_after_scan(index, files, extension, now)[id] == disk_listing(files[k], extension, now).unwrap().1 by {
        lemma_scan_last_listing(index, files, extension, now, id, k);
    }
}

/// The window a directory scan seeds is the newest time among the indexed
/// files: no indexed file is newer, and, unless no file was indexed (0), one
/// of them has exactly that time.
pub proof fn law_scan_window_is_the_newest_indexed_time(
    files: Seq<DiskFile>,
    extension: Seq<char>,
    now: u64,
)
    ensures
        forall|k: int|
            0 <= k < files.len() ==> (#[trigger] disk_listing(files[k], extension, now) matches Some(
                p,
            ) ==> p.1.last_played <= newest_listed(files, extension, now)),
        newest_listed(files, extension, now) == 0 || exists|k: int|
            0 <= k < files.len() && (#[trigger] disk_listing(files[k], extension, now)) is Some
                && disk_listing(files[k], extension, now).unwrap().1.last_played == newest_listed(
                files,
                extension,
                now,
            ),
    decreases files.len(),
{
    if files.len() > 0 {
        let rest = files.drop_last();
        let last = files.len() - 1;
        law_scan_window_is_the_newest_indexed_time(rest, extension, now);
        assert forall|k: int| 0 <= k < rest.len() implies rest[k] == files[k] by {}
        assert forall|k: int|
            0 <= k < files.len() implies (#[trigger] disk_listing(files[k], extension, now) matches Some(
                p,
            ) ==> p.1.last_played <= newest_listed(files, extension, now)) by {
            if k < last {
                assert(disk_listing(rest[k], extension, now) == disk_listing(files[k], extension, now));
            }
        }
        if newest_listed(files, extension, now) != 0 {
            if newest_listed(files, extension, now) != newest_listed(rest, extension, now) {
                assert(disk_listing(files[last], extension, now) is Some);
            } else {
                let k = choose|k: int|
                    0 <= k < rest.len() && (#[trigger] disk_listing(rest[k], extension, now)) is Some
                        && disk_listing(rest[k], extension, now).unwrap().1.last_played
                        == newest_listed(rest, extension, now);
                assert(disk_listing(files[k], extension, now) == disk_listing(rest[k], extension, now));
            }
        }
    }
}

} // verus!

verus! {

// ---------------------------------------------------------------------------
// What the catalog operations are for
// ---------------------------------------------------------------------------

/// The quality ordinal picks its tier (1 = 1080 HDR, 2 = 4K SDR, 3 = 4K
/// HDR, anything else = 1080 SDR) when the clip has it; when it does not,
/// the URL is the first the clip has in the order 1080 SDR, 1080 HDR,
/// 4K SDR, 4K HDR (so a lower tier is preferred to a higher one), and empty
/// only for a clip with no URL at all.
pub proof fn law_quality_url_prefers_the_lowest_available_tier(a: AssetView, quality: int)
    ensures
        ({
            let asked = if quality == 1 {
                a.url_1080_hdr
            } else if quality == 2 {
                a.url_4k_sdr
            } else if quality == 3 {
                a.url_4k_hdr
            } else {
                a.url_1080_sdr
            };
            let res = quality_url_spec(a, quality);
            &&& asked.len() > 0 ==> res == asked
            &&& asked.len() == 0 && a.url_1080_sdr.len() > 0 ==> res == a.url_1080_sdr
            &&& asked.len() == 0 && a.url_1080_sdr.len() == 0 && a.url_1080_hdr.len() > 0 ==> res
                == a.url_1080_hdr
            &&& asked.len() == 0 && a.url_1080_sdr.len() == 0 && a.url_1080_hdr.len() == 0
                && a.url_4k_sdr.len() > 0 ==> res == a.url_4k_sdr
            &&& asked.len() == 0 && a.url_1080_sdr.len() == 0 && a.url_1080_hdr.len() == 0
                && a.url_4k_sdr.len() == 0 ==> res == a.url_4k_hdr
        }),
{
}

/// Whether a clip plays in a playlist filtered with `mode` at `hour`.
pub open spec fn plays_in(mode: int, hour: int) -> spec_fn(AssetView) -> bool {
    |a: AssetView| time_of_day_matches_spec(a.time_of_day, mode, hour)
}

/// The clips of `assets` that match the filter are the catalog filtered by
/// [`plays_in`].
proof fn lemma_matching_is_a_filter(assets: Seq<AssetView>, mode: int, hour: int)
    ensures
        matching_assets(assets, mode, hour) == assets.filter(plays_in(mode, hour)),
    decreases assets.len(),
{
    reveal(Seq::filter);
    if assets.len() > 0 {
        lemma_matching_is_a_filter(assets.drop_last(), mode, hour);
    }
}

/// The time-of-day filter keeps exactly the clips that match it, in
/// catalog order, whatever the mode (the clock mode included); it hands
/// back the whole catalog only under `ALL` or when no clip matches.
pub proof fn law_filter_keeps_exactly_the_matching_clips(assets: Seq<AssetView>, mode: int, hour: int)
    ensures
        mode == time_filter::ALL ==> filter_by_time_of_day_spec(assets, mode, hour) == assets,
        (forall|i: int|
            0 <= i < assets.len() ==> !time_of_day_matches_spec(
                #[trigger] assets[i].time_of_day,
                mode,
                hour,
            )) ==> filter_by_time_of_day_spec(assets, mode, hour) == assets,
        mode != time_filter::ALL && (exists|i: int|
            0 <= i < assets.len() && time_of_day_matches_spec(
                #[trigger] assets[i].time_of_day,
                mode,
                hour,
            )) ==> filter_by_time_of_day_spec(assets, mode, hour) == assets.filter(
            plays_in(mode, hour),
        ) && forall|k: int|
            0 <= k < filter_by_time_of_day_spec(assets, mode, hour).len()
                ==> time_of_day_matches_spec(
                #[trigger] filter_by_time_of_day_spec(assets, mode, hour)[k].time_of_day,
                mode,
                hour,
            ),
{
    lemma_matching_is_a_filter(assets, mode, hour);
    let pred = plays_in(mode, hour);
    let kept = assets.filter(pred);
    broadcast use vstd::seq_lib::group_filter_ensures;
    if exists|i: int|
        0 <= i < assets.len() && time_of_day_matches_spec(#[trigger] assets[i].time_of_day, mode, hour) {
        let i = choose|i: int|
            0 <= i < assets.len() && time_of_day_matches_spec(
                #[trigger] assets[i].time_of_day,
                mode,
                hour,
            );
        assert(pred(assets[i]));
        assert(kept.contains(assets[i]));
        assert forall|k: int| 0 <= k < kept.len() implies time_of_day_matches_spec(
            #[trigger] kept[k].time_of_day,
            mode,
            hour,
        ) by {
            assert(pred(kept[k]));
        }
    }
    if forall|i: int|
        0 <= i < assets.len() ==> !time_of_day_matches_spec(#[trigger] assets[i].time_of_day, mode, hour) {
        if kept.len() > 0 {
            assert(pred(kept[0]));
            assert(assets.contains(kept[0])) by {
                lemma_matching_assets_members(assets, mode, hour);
                assert(kept[0] == matching_assets(assets, mode, hour)[0]);
            }
            let j = choose|j: int| 0 <= j < assets.len() && assets[j] == kept[0];
            assert(!time_of_day_matches_spec(assets[j].time_of_day, mode, hour));
        }
    }
}

/// The (asset, liveness flag) pairs, paired in order as far as both go.
pub open spec fn flagged_assets(assets: Seq<AssetView>, alive: Seq<bool>) -> Seq<(AssetView, bool)> {
    let n = if assets.len() <= alive.len() {
        assets.len()
    } else {
        alive.len()
    };
    Seq::new(n, |i: int| (assets[i], alive[i]))
}

/// Whether a paired asset passed its liveness check.
pub open spec fn passed() -> spec_fn((AssetView, bool)) -> bool {
    |p: (AssetView, bool)| p.1
}

/// The asset of a pair.
pub open spec fn asset_of() -> spec_fn((AssetView, bool)) -> AssetView {
    |p: (AssetView, bool)| p.0
}

/// The live assets among the first `n` are those of the first `n` pairs
/// that passed, and there are some exactly when a flag among the first `n`
/// is set.
proof fn lemma_alive_prefix_is_a_filter(assets: Seq<AssetView>, alive: Seq<bool>, n: int)
    requires
        0 <= n <= assets.len(),
        n <= alive.len(),
    ensures
        alive_prefix(assets, alive, n) == Seq::new(n as nat, |i: int| (assets[i], alive[i])).filter(
            passed(),
        ).map_values(asset_of()),
        alive_prefix(assets, alive, n).len() > 0 <==> exists|i: int| 0 <= i < n && alive[i],
    decreases n,
{
    reveal(Seq::filter);
    let pairs = Seq::new(n as nat, |i: int| (assets[i], alive[i]));
    if n > 0 {
        lemma_alive_prefix_is_a_filter(assets, alive, n - 1);
        let before = Seq::new((n - 1) as nat, |i: int| (assets[i], alive[i]));
        assert(pairs.drop_last() =~= before);
        let f = before.filter(passed());
        if alive[n - 1] {
            assert(pairs.filter(passed()) == f.push(pairs.last()));
            assert(f.push(pairs.last()).map_values(asset_of()) =~= f.map_values(asset_of()).push(
                assets[n - 1],
            ));
        } else {
            assert(pairs.filter(passed()) == f);
            if exists|i: int| 0 <= i < n && alive[i] {
                let i = choose|i: int| 0 <= i < n && alive[i];
                assert(i < n - 1);
            }
        }
    } else {
        assert(pairs =~= Seq::<(AssetView, bool)>::empty());
        assert(pairs.filter(passed()).map_values(asset_of()) =~= Seq::<AssetView>::empty());
    }
}

/// The liveness check keeps exactly the assets whose check passed, in
/// catalog order (flags are paired with assets in order); the whole catalog
/// is kept only when no check passed.
pub proof fn law_liveness_keeps_exactly_the_live_clips(assets: Seq<AssetView>, alive: Seq<bool>)
    ensures
        (exists|i: int| 0 <= i < flagged_assets(assets, alive).len() && #[trigger] alive[i])
            ==> keep_live_spec(assets, alive) == flagged_assets(assets, alive).filter(
            passed(),
        ).map_values(asset_of()),
        !(exists|i: int| 0 <= i < flagged_assets(assets, alive).len() && #[trigger] alive[i])
            ==> keep_live_spec(assets, alive) == assets,
{
    let n = if assets.len() <= alive.len() {
        assets.len() as int
    } else {
        alive.len() as int
    };
    lemma_alive_prefix_is_a_filter(assets, alive, n);
    assert(flagged_assets(assets, alive) == Seq::new(n as nat, |i: int| (assets[i], alive[i])));
}

/// Normalization files a clip under Apple's tag, trimmed and lower-cased,
/// whenever that is `day`, `sunrise`, `night` or `sunset`, and under no tag
/// (empty) for any other value or none.
pub proof fn law_normalization_keeps_every_known_tag(raw: RawAerialAsset)
    ensures
        normalize_spec(raw) matches Some(a) ==> match raw.time_of_day {
            Some(t) => if tag_of(t@) == "day"@ || tag_of(t@) == "sunrise"@ || tag_of(t@) == "night"@
                || tag_of(t@) == "sunset"@ {
                a.time_of_day == tag_of(t@)
            } else {
                a.time_of_day.len() == 0
            },
            None => a.time_of_day.len() == 0,
        },
{
}

/// Each role of the list model shows the asset field its QML name says:
/// `id`, `accessibilityLabel`, `url1080SDR`, `url1080HDR`, `url4kSDR`,
/// `url4kHDR`, `timeOfDay` and `previewImage`; roles without a name show
/// nothing.
pub proof fn law_roles_show_the_field_they_name(a: AssetView, role: int)
    ensures
        0 <= role < ROLE_COUNT ==> role_field(a, role) == Some(
            if role_name(role) == "id"@ {
                a.id
            } else if role_name(role) == "accessibilityLabel"@ {
                a.accessibility_label
            } else if role_name(role) == "url1080SDR"@ {
                a.url_1080_sdr
            } else if role_name(role) == "url1080HDR"@ {
                a.url_1080_hdr
            } else if role_name(role) == "url4kSDR"@ {
                a.url_4k_sdr
            } else if role_name(role) == "url4kHDR"@ {
                a.url_4k_hdr
            } else if role_name(role) == "timeOfDay"@ {
                a.time_of_day
            } else {
                a.preview_image
            },
        ),
        !(0 <= role < ROLE_COUNT) ==> role_field(a, role) is None,
{
    reveal_strlit("id");
    reveal_strlit("accessibilityLabel");
    reveal_strlit("url1080SDR");
    reveal_strlit("url1080HDR");
    reveal_strlit("url4kSDR");
    reveal_strlit("url4kHDR");
    reveal_strlit("timeOfDay");
    reveal_strlit("previewImage");
    // The names differ in length, or (for the two pairs of equal length)
    // in the letter that tells SDR from HDR.
    assert("id"@.len() == 2 && "accessibilityLabel"@.len() == 18 && "url1080SDR"@.len() == 10
        && "url1080HDR"@.len() == 10 && "url4kSDR"@.len() == 8 && "url4kHDR"@.len() == 8
        && "timeOfDay"@.len() == 9 && "previewImage"@.len() == 12);
    assert("url1080SDR"@[7] != "url1080HDR"@[7]);
    assert("url4kSDR"@[5] != "url4kHDR"@[5]);
}

} // verus!
