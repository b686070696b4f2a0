use aerial_core::manifest::{time_filter, AerialAsset};
use aerial_core::qml::{
    cache_budget, file_url_path, interval_nanos, path_to_file_url, role_names,
    AerialCacheRust, AerialManifestRust, PathIndex, DEFAULT_DOWNLOAD_INTERVAL_SECS, DEFAULT_MAX_CACHE_BYTES,
    MAX_THUMBNAIL_CACHE_BYTES,
};
use aerial_core::NANOS_PER_SECOND;

fn asset(id: &str) -> AerialAsset {
    AerialAsset {
        id: id.to_string(),
        accessibility_label: format!("{id} label"),
        time_of_day: "night".to_string(),
        preview_image: "p.png".to_string(),
        url_1080_sdr: "a".to_string(),
        url_1080_hdr: "b".to_string(),
        url_4k_sdr: "c".to_string(),
        url_4k_hdr: "d".to_string(),
    }
}

#[test]
fn file_urls_round_trip() {
    let url = path_to_file_url("/home/u/.cache/a.mov");
    assert_eq!(url, "file:///home/u/.cache/a.mov");
    assert_eq!(file_url_path(&url), Some("/home/u/.cache/a.mov"));
    assert_eq!(file_url_path("https://apple/a.mov"), None);
    assert_eq!(file_url_path("file:/"), None);
}

#[test]
fn settings_conversions() {
    assert_eq!(interval_nanos(-5), 0);
    assert_eq!(interval_nanos(2), 2 * NANOS_PER_SECOND);
    assert_eq!(interval_nanos(i64::MAX), u64::MAX);
    assert_eq!(
        interval_nanos(DEFAULT_DOWNLOAD_INTERVAL_SECS),
        86_400 * NANOS_PER_SECOND
    );
    assert_eq!(cache_budget(-1), 0);
    assert_eq!(cache_budget(DEFAULT_MAX_CACHE_BYTES), 17_179_869_184);
    assert_eq!(MAX_THUMBNAIL_CACHE_BYTES, 268_435_456);
}

#[test]
fn path_index_forgets_evicted_and_stale_entries() {
    let mut index = PathIndex::new();
    index.insert("a".to_string(), "file:///c/a.mov".to_string());
    index.insert("b".to_string(), "file:///c/b.mov".to_string());
    index.insert("a".to_string(), "file:///c/a2.mov".to_string());
    assert_eq!(index.get("a"), Some("file:///c/a2.mov".to_string()));

    index.forget_evicted(&["b".to_string(), "zzz".to_string()]);
    assert_eq!(index.get("b"), None);
    assert_eq!(index.ids(), vec!["a".to_string()]);

    let url = index.get("a").unwrap();
    assert_eq!(index.settle("a", url.clone(), true), Some(url.clone()));
    assert_eq!(index.get("a"), Some(url.clone()));
    // Re-recorded meanwhile: the newer record stays.
    assert_eq!(index.settle("a", "file:///c/old.mov".to_string(), false), None);
    assert_eq!(index.get("a"), Some(url.clone()));
    // Stale: dropped so the caller downloads again.
    assert_eq!(index.settle("a", url, false), None);
    assert_eq!(index.get("a"), None);
}

#[test]
fn manifest_model_rows_and_roles() {
    let mut model = AerialManifestRust::default();
    assert_eq!(model.row_count(), 0);
    assert!(!model.is_ready());
    model.finish_loading(vec![asset("x"), asset("y")]);
    assert!(model.is_ready());
    assert_eq!(model.row_count(), 2);
    assert_eq!(model.data(1, 0), Some("y".to_string()));
    assert_eq!(model.data(0, 1), Some("x label".to_string()));
    assert_eq!(model.data(0, 2), Some("a".to_string()));
    assert_eq!(model.data(0, 5), Some("d".to_string()));
    assert_eq!(model.data(0, 6), Some("night".to_string()));
    assert_eq!(model.data(0, 7), Some("p.png".to_string()));
    assert_eq!(model.data(0, 8), None);
    assert_eq!(model.data(2, 0), None);
    assert_eq!(model.data(-1, 0), None);
    assert!(model.matches_time_of_day("night", time_filter::NIGHT, 0));
    assert!(!model.matches_time_of_day("night", time_filter::DAY, 0));

    let names = role_names();
    assert_eq!(names.len(), 8);
    assert_eq!(names[0], (0, "id"));
    assert_eq!(names[7], (7, "previewImage"));
}

#[test]
fn cache_settings_defaults_and_derived_values() {
    let mut settings = AerialCacheRust::default();
    assert_eq!(settings.quality, 0);
    assert!(settings.downloads_allowed);
    assert!(!settings.wifi_only);
    assert_eq!(settings.budget(), 17_179_869_184);
    assert_eq!(settings.interval(), 86_400 * NANOS_PER_SECOND);
    assert_eq!(settings.protected_ids(), vec!["", ""]);

    settings.max_cache_bytes = -3;
    settings.download_interval_secs = 0;
    settings.current_id = "now".to_string();
    settings.next_id = "later".to_string();
    assert_eq!(settings.budget(), 0);
    assert_eq!(settings.interval(), 0);
    assert_eq!(settings.protected_ids(), vec!["now", "later"]);
}
