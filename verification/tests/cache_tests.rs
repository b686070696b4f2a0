use aerial_core::cache::{
    metered_from_nm_state, nanos_from_reading, now_ts, CacheError, CacheState, DiskFile, DownloadClaim, EnsureOutcome,
    EnsureStep,
};
use aerial_core::NANOS_PER_SECOND;

const DAY: u64 = 24 * 60 * 60 * NANOS_PER_SECOND;

fn fetch(cache: &mut CacheState, id: &str, size: u64, now: u64, protected: &[&str]) -> EnsureOutcome {
    match cache.begin_ensure_at(id, now) {
        Ok(EnsureStep::Fetch { final_path, .. }) => {
            cache
                .finish_download_at(id.to_string(), final_path, size, now, protected)
                .0
        }
        other => panic!("expected a download for {id}, got {other:?}"),
    }
}

#[test]
fn invalid_cache_ids_are_rejected_before_creating_paths() {
    let mut cache = CacheState::new("/tmp/parent/cache".to_string(), 1024 * 1024);
    for id in [
        "",
        ".",
        "..",
        "../escape",
        "/absolute",
        "nested/name",
        "nested\\name",
    ] {
        let result = cache.begin_ensure_at(id, 1);
        assert!(matches!(result, Err(CacheError::InvalidId)), "id: {id:?}");
        assert!(matches!(cache.file_name_for(id), Err(CacheError::InvalidId)));
        assert!(matches!(cache.download_paths(id), Err(CacheError::InvalidId)));
    }
    assert!(cache.cached_ids().is_empty());
}

#[test]
fn file_names_and_download_paths() {
    let cache = CacheState::new("/tmp/videos".to_string(), 1);
    assert_eq!(cache.file_name_for("abc").unwrap(), "abc.mov");
    assert_eq!(cache.file_name_for("...").unwrap(), "....mov");
    let (final_path, tmp_path) = cache.download_paths("abc").unwrap();
    assert_eq!(final_path, "/tmp/videos/abc.mov");
    assert_eq!(tmp_path, "/tmp/videos/abc.part");

    let thumbs = CacheState::with_extension("/tmp/thumbs/".to_string(), 1, "png".to_string());
    assert_eq!(thumbs.download_paths("shot").unwrap().0, "/tmp/thumbs/shot.png");
    let here = CacheState::new(String::new(), 1);
    assert_eq!(here.download_paths("x").unwrap().0, "x.mov");
}

#[test]
fn cache_miss_then_hit() {
    let mut cache = CacheState::new("/c".to_string(), 10 * 1024 * 1024);
    let first = fetch(&mut cache, "abc", 1024, 10, &[]);
    assert!(matches!(first, EnsureOutcome::Downloaded { .. }));
    assert_eq!(first.path(), "/c/abc.mov");

    let second = cache.begin_ensure_at("abc", 20).unwrap();
    assert_eq!(second, EnsureStep::Hit("/c/abc.mov".to_string()));
    assert_eq!(cache.cached_path("abc"), Some("/c/abc.mov".to_string()));
}

#[test]
fn eviction_removes_least_recently_played_but_protects_current() {
    let mut cache = CacheState::new("/c".to_string(), 2200);
    fetch(&mut cache, "a", 1000, 1, &[]);
    fetch(&mut cache, "b", 1000, 2, &[]);
    fetch(&mut cache, "c", 1000, 3, &["a"]);

    let ids = cache.cached_ids();
    assert!(ids.contains(&"a".to_string()), "protected id must survive eviction");
    assert!(ids.contains(&"c".to_string()), "most recent download must survive");
    assert!(!ids.contains(&"b".to_string()));
    assert!(cache.total_bytes() <= 2200);
}

#[test]
fn download_reports_ids_removed_by_eviction() {
    let mut cache = CacheState::new("/c".to_string(), 1500);
    fetch(&mut cache, "old", 1000, 1, &[]);
    let (outcome, paths) = match cache.begin_ensure_at("new", 2) {
        Ok(EnsureStep::Fetch { final_path, .. }) => {
            cache.finish_download_at("new".to_string(), final_path, 1000, 2, &[])
        }
        other => panic!("unexpected {other:?}"),
    };
    assert_eq!(outcome.evicted_ids(), &["old".to_string()]);
    assert_eq!(paths, vec!["/c/old.mov".to_string()]);
    assert_eq!(cache.cached_path("old"), None);
}

#[test]
fn touch_moves_an_entry_to_the_back_of_the_eviction_order() {
    let mut cache = CacheState::new("/c".to_string(), 2500);
    fetch(&mut cache, "a", 1000, 1, &[]);
    fetch(&mut cache, "b", 1000, 2, &[]);
    cache.touch_at("a", 5);
    cache.record_download_at("c".to_string(), "/c/c.mov".to_string(), 1000, 6);
    let evicted = cache.evict_lru(&[]);
    assert_eq!(evicted, vec![("b".to_string(), "/c/b.mov".to_string())]);
}

#[test]
fn eviction_keeps_everything_when_all_is_protected() {
    let mut cache = CacheState::new("/c".to_string(), 10);
    cache.record_download_at("a".to_string(), "/c/a.mov".to_string(), 100, 1);
    cache.record_download_at("b".to_string(), "/c/b.mov".to_string(), 100, 2);
    assert!(cache.evict_lru(&["a", "b"]).is_empty());
    assert_eq!(cache.total_bytes(), 200);
    let evicted = cache.evict_lru(&["b"]);
    assert_eq!(evicted, vec![("a".to_string(), "/c/a.mov".to_string())]);
    cache.set_max_bytes(0);
    assert!(cache.evict_lru(&["b"]).is_empty());
}

#[test]
fn eviction_stops_as_soon_as_the_budget_fits() {
    let mut cache = CacheState::new("/c".to_string(), 250);
    for (i, id) in ["a", "b", "c", "d"].iter().enumerate() {
        cache.record_download_at(id.to_string(), format!("/c/{id}.mov"), 100, i as u64 + 1);
    }
    let evicted: Vec<String> = cache.evict_lru(&[]).into_iter().map(|(id, _)| id).collect();
    assert_eq!(evicted, vec!["a".to_string(), "b".to_string()]);
    assert_eq!(cache.total_bytes(), 200);
}

#[test]
fn download_slot_admits_one_claim_per_window() {
    let mut cache = CacheState::new("/c".to_string(), 1024);

    let first = cache
        .claim_download_slot(DAY)
        .expect("the first claim must succeed");
    assert_eq!(first.previous, 0);
    assert!(cache.download_allowed_in(DAY) > 0);

    assert!(cache.claim_download_slot(DAY).is_none());

    cache.restore_download_slot(first);
    assert_eq!(cache.download_allowed_in(DAY), 0);
    assert!(cache.claim_download_slot(DAY).is_some());

    assert!(cache.claim_download_slot(0).is_some());
    assert_eq!(cache.download_allowed_in(0), 0);
}

#[test]
fn download_window_at_fixed_clock_readings() {
    let mut cache = CacheState::new("/c".to_string(), 1024);
    let first = cache.claim_download_slot_at(100, 50).unwrap();
    assert_eq!(first, DownloadClaim { previous: 0, claimed_at: 100 });
    assert_eq!(cache.download_allowed_in_at(120, 50), 30);
    assert_eq!(cache.claim_download_slot_at(120, 50), None);
    let second = cache.claim_download_slot_at(150, 50).unwrap();
    assert_eq!(second, DownloadClaim { previous: 100, claimed_at: 150 });
    assert_eq!(cache.download_window(), 150);
    // The first claim is no longer the window's: handing it back is ignored.
    cache.restore_download_slot(first);
    assert_eq!(cache.download_window(), 150);
    // The second one is handed back however long its download took.
    cache.restore_download_slot(second);
    assert_eq!(cache.download_window(), 100);
    // A clock that reads earlier than the window counts as no time passed.
    assert_eq!(cache.download_allowed_in_at(10, 50), 50);
}

#[test]
fn window_seeded_from_disk_only_moves_forward() {
    let mut cache = CacheState::new("/c".to_string(), 1024);
    cache.advance_download_window(500);
    assert_eq!(cache.download_window(), 500);
    cache.advance_download_window(400);
    assert_eq!(cache.download_window(), 500);
}

#[test]
fn existing_files_are_indexed_by_stem_and_extension() {
    let mut cache = CacheState::with_extension("/t".to_string(), 1024, "png".to_string());
    let files = vec![
        DiskFile {
            path: "/t/shot.png".to_string(),
            file_name: Some("shot.png".to_string()),
            size: 512,
            modified_nanos: Some(700),
        },
        DiskFile {
            path: "/t/stray.mov".to_string(),
            file_name: Some("stray.mov".to_string()),
            size: 8,
            modified_nanos: Some(900),
        },
        DiskFile {
            path: "/t/.png".to_string(),
            file_name: Some(".png".to_string()),
            size: 8,
            modified_nanos: Some(950),
        },
        DiskFile {
            path: "/t/odd".to_string(),
            file_name: None,
            size: 8,
            modified_nanos: Some(990),
        },
        DiskFile {
            path: "/t/a.b.png".to_string(),
            file_name: Some("a.b.png".to_string()),
            size: 3,
            modified_nanos: None,
        },
    ];
    let newest = cache.index_existing_at(files, 800);
    assert_eq!(newest, 800);
    let mut ids = cache.cached_ids();
    ids.sort();
    assert_eq!(ids, vec!["a.b".to_string(), "shot".to_string()]);
    assert_eq!(cache.cached_path("shot"), Some("/t/shot.png".to_string()));
    assert_eq!(cache.total_bytes(), 515);
}

#[test]
fn all_cached_lists_ids_with_paths() {
    let mut cache = CacheState::new("/c".to_string(), 1024);
    cache.record_download_at("a".to_string(), "/c/a.mov".to_string(), 1, 1);
    cache.record_download_at("a".to_string(), "/c/a2.mov".to_string(), 2, 2);
    assert_eq!(
        cache.all_cached(),
        vec![("a".to_string(), "/c/a2.mov".to_string())]
    );
    assert_eq!(cache.total_bytes(), 2);
}

#[test]
fn ensure_outcome_accessors() {
    let hit = EnsureOutcome::Cached("/c/a.mov".to_string());
    assert_eq!(hit.path(), "/c/a.mov");
    assert!(hit.evicted_ids().is_empty());
    assert!(!hit.is_download());
    let miss = EnsureOutcome::Downloaded {
        path: "/c/b.mov".to_string(),
        evicted_ids: vec!["a".to_string()],
    };
    assert_eq!(miss.path(), "/c/b.mov");
    assert_eq!(miss.evicted_ids(), &["a".to_string()]);
    assert!(miss.is_download());
}

#[test]
fn metered_states() {
    assert!(metered_from_nm_state(1));
    assert!(metered_from_nm_state(3));
    for v in [0, 2, 4, 5] {
        assert!(!metered_from_nm_state(v));
    }
}

#[test]
fn the_clock_reads_past_the_epoch() {
    assert!(now_ts() > 0);
}

fn disk_file(dir: &str, name: &str, size: u64, modified_nanos: u128) -> DiskFile {
    DiskFile {
        path: format!("{dir}/{name}"),
        file_name: Some(name.to_string()),
        size,
        modified_nanos: Some(modified_nanos),
    }
}

#[test]
fn non_video_cache_uses_its_own_extension_and_survives_a_restart() {
    let mut cache = CacheState::with_extension("/t".to_string(), 1024 * 1024, "png".to_string());
    let outcome = fetch(&mut cache, "shot", 512, 10, &[]);
    assert!(outcome.path().ends_with(".png"));

    let mut restarted =
        CacheState::with_extension("/t".to_string(), 1024 * 1024, "png".to_string());
    restarted.index_existing_at(
        vec![disk_file("/t", "shot.png", 512, 10), disk_file("/t", "stray.mov", 8, 11)],
        20,
    );
    assert_eq!(restarted.cached_ids(), vec!["shot".to_string()]);
}

#[test]
fn ensure_loaded_scans_once_and_seeds_the_window_before_any_claim() {
    let now: u64 = 5 * DAY;
    let mut cache = CacheState::new("/c".to_string(), 1024 * 1024);
    let newest = cache.index_existing_at(vec![disk_file("/c", "old.mov", 128, (now - 1) as u128)], now);
    cache.advance_download_window(newest);
    assert_eq!(cache.cached_ids(), vec!["old".to_string()]);
    assert!(
        cache.claim_download_slot_at(now, DAY).is_none(),
        "a file written moments ago must already hold this window"
    );
}

#[test]
fn download_window_survives_a_restart() {
    let written: u64 = 3 * DAY;
    let mut cache = CacheState::new("/c".to_string(), 1024 * 1024);
    fetch(&mut cache, "a", 512, written, &[]);

    let mut restarted = CacheState::new("/c".to_string(), 1024 * 1024);
    let newest = restarted.index_existing_at(
        vec![disk_file("/c", "a.mov", 512, written as u128)],
        written + 10,
    );
    restarted.advance_download_window(newest);
    assert!(
        restarted.download_allowed_in_at(written + 10, DAY) > 0,
        "the file just written must count as this window's download"
    );
    assert!(restarted.claim_download_slot_at(written + 10, DAY).is_none());
    // A long-idle cache is allowed to fetch again.
    assert!(restarted.claim_download_slot_at(written + 10, 1).is_some());
}

#[test]
fn a_download_within_budget_is_a_hit_afterwards() {
    let mut cache = CacheState::new("/c".to_string(), 1000);
    fetch(&mut cache, "a", 600, 1, &[]);
    let outcome = fetch(&mut cache, "b", 400, 2, &[]);
    assert!(outcome.evicted_ids().is_empty());
    assert_eq!(cache.begin_ensure_at("b", 3).unwrap(), EnsureStep::Hit("/c/b.mov".to_string()));
    assert_eq!(cache.begin_ensure_at("a", 4).unwrap(), EnsureStep::Hit("/c/a.mov".to_string()));
}

#[test]
fn only_a_genuine_download_keeps_the_window() {
    let mut cache = CacheState::new("/c".to_string(), 1024);
    let claim = cache.claim_download_slot_at(100, DAY).unwrap();
    assert_eq!(claim.previous, 0);
    // A cache hit or a dead URL hands the claim back, even long after.
    assert!(cache.finish_claim_at(100 + 3 * NANOS_PER_SECOND, claim, false, DAY));
    assert_eq!(cache.download_window(), 0);

    let claim = cache.claim_download_slot_at(200, DAY).unwrap();
    // A real download keeps it.
    assert!(!cache.finish_claim_at(210, claim, true, DAY));
    assert_eq!(cache.download_window(), 200);
    assert!(cache.claim_download_slot_at(300, DAY).is_none());

    // A later claim that won meanwhile is never rewound.
    let stale = DownloadClaim { previous: 0, claimed_at: 100 };
    assert!(!cache.finish_claim_at(400, stale, false, DAY));
    assert_eq!(cache.download_window(), 200);
}

#[test]
fn prefetch_reports_ids_removed_by_eviction() {
    let mut cache = CacheState::new("/c".to_string(), 1500);
    fetch(&mut cache, "old", 1000, 1, &[]);
    let outcome = fetch(&mut cache, "new", 1000, 2, &[]);
    assert_eq!(outcome.evicted_ids(), &["old".to_string()]);

    // Already cached: nothing downloaded, nothing evicted.
    let again = cache.begin_ensure_at("new", 3).unwrap();
    assert_eq!(again, EnsureStep::Hit("/c/new.mov".to_string()));
    assert_eq!(cache.cached_ids(), vec!["new".to_string()]);
}

#[test]
fn clock_readings_become_timestamps() {
    assert_eq!(nanos_from_reading(None), 0);
    assert_eq!(nanos_from_reading(Some(1_700_000_000_000_000_000)), 1_700_000_000_000_000_000);
    assert_eq!(nanos_from_reading(Some((1u128 << 64) + 5)), 5);
}

#[test]
fn only_the_caches_own_files_are_listed() {
    let thumbs = CacheState::with_extension("/t".to_string(), 1, "png".to_string());
    assert!(thumbs.lists_file_name("shot.png"));
    assert!(thumbs.lists_file_name("a.b.png"));
    assert!(!thumbs.lists_file_name("stray.mov"));
    assert!(!thumbs.lists_file_name(".png"));
    assert!(!thumbs.lists_file_name("png"));
}
