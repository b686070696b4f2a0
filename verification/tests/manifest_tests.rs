use aerial_core::manifest::time_filter;
use aerial_core::manifest::{
    append_tar_chunk, filter_by_time_of_day, keep_live_assets, liveness_urls, normalize_manifest,
    quality_url, time_of_day_matches, usable_catalog, AerialAsset, AerialManifestData,
    ManifestError, MirrorSearch, RawAerialAsset, RawAerialManifest, MAX_TAR_BYTES,
};

fn asset(id: &str, url: &str) -> AerialAsset {
    AerialAsset {
        id: id.to_string(),
        accessibility_label: id.to_string(),
        time_of_day: String::new(),
        preview_image: String::new(),
        url_1080_sdr: url.to_string(),
        url_1080_hdr: url.to_string(),
        url_4k_sdr: url.to_string(),
        url_4k_hdr: url.to_string(),
    }
}

fn dated_asset(id: &str, time_of_day: &str) -> AerialAsset {
    let mut asset = asset(id, "https://apple/clip.mov");
    asset.time_of_day = time_of_day.to_string();
    asset
}

fn raw(id: &str) -> RawAerialAsset {
    RawAerialAsset {
        id: id.to_string(),
        accessibility_label: None,
        localized_name_key: None,
        shot_id: None,
        time_of_day: None,
        preview_image: None,
        preview_image_900x580: None,
        url_1080_sdr: None,
        url_1080_hdr: None,
        url_4k_sdr: None,
        url_4k_sdr_240fps: None,
        url_4k_hdr: None,
    }
}

fn catalog(assets: Vec<RawAerialAsset>) -> AerialManifestData {
    normalize_manifest(RawAerialManifest {
        version: 0,
        initial_asset_count: 0,
        assets,
    })
}

fn some(s: &str) -> Option<String> {
    Some(s.to_string())
}

#[test]
fn time_of_day_filter_groups_twilight_with_its_half_of_the_day() {
    for tag in ["day", "sunrise"] {
        assert!(time_of_day_matches(tag, time_filter::DAY, 0));
        assert!(!time_of_day_matches(tag, time_filter::NIGHT, 0));
    }
    for tag in ["night", "sunset"] {
        assert!(time_of_day_matches(tag, time_filter::NIGHT, 0));
        assert!(!time_of_day_matches(tag, time_filter::DAY, 0));
    }
}

#[test]
fn time_of_day_filter_keeps_everything_it_cannot_classify() {
    assert!(time_of_day_matches("night", time_filter::ALL, 12));
    assert!(time_of_day_matches("night", 99, 12));
    assert!(time_of_day_matches("", time_filter::DAY, 12));
    assert!(time_of_day_matches("", time_filter::NIGHT, 12));
}

#[test]
fn auto_mode_follows_the_local_clock() {
    assert!(time_of_day_matches("day", time_filter::AUTO, 13));
    assert!(time_of_day_matches("sunrise", time_filter::AUTO, 13));
    assert!(!time_of_day_matches("night", time_filter::AUTO, 13));

    assert!(time_of_day_matches("night", time_filter::AUTO, 2));
    assert!(time_of_day_matches("sunset", time_filter::AUTO, 2));
    assert!(!time_of_day_matches("day", time_filter::AUTO, 2));

    assert!(time_of_day_matches("sunrise", time_filter::AUTO, 6));
    assert!(time_of_day_matches("day", time_filter::AUTO, 6));
    assert!(!time_of_day_matches("sunset", time_filter::AUTO, 6));
    assert!(time_of_day_matches("sunset", time_filter::AUTO, 19));
    assert!(time_of_day_matches("night", time_filter::AUTO, 19));
    assert!(!time_of_day_matches("sunrise", time_filter::AUTO, 19));

    assert!(time_of_day_matches("day", time_filter::AUTO, 36));
    assert!(time_of_day_matches("night", time_filter::AUTO, -2));
}

#[test]
fn filter_by_time_of_day_selects_the_matching_half() {
    let assets = vec![
        dated_asset("d", "day"),
        dated_asset("sr", "sunrise"),
        dated_asset("n", "night"),
        dated_asset("ss", "sunset"),
    ];

    let day = filter_by_time_of_day(assets.clone(), time_filter::DAY, 12);
    assert_eq!(
        day.iter().map(|a| a.id.as_str()).collect::<Vec<_>>(),
        ["d", "sr"]
    );

    let all = filter_by_time_of_day(assets.clone(), time_filter::ALL, 12);
    assert_eq!(all.len(), 4);
}

#[test]
fn filter_by_time_of_day_keeps_the_catalog_rather_than_emptying_it() {
    let assets = vec![dated_asset("d", "day"), dated_asset("d2", "day")];
    let night = filter_by_time_of_day(assets, time_filter::NIGHT, 23);
    assert_eq!(night.len(), 2);
}

#[test]
fn quality_url_falls_back_to_an_available_tier() {
    let mut only_4k_sdr = asset("a", "");
    only_4k_sdr.url_4k_sdr = "https://apple/4k-sdr.mov".to_string();

    assert_eq!(quality_url(&only_4k_sdr, 0), "https://apple/4k-sdr.mov");
    assert_eq!(quality_url(&only_4k_sdr, 2), "https://apple/4k-sdr.mov");
    assert_eq!(quality_url(&asset("b", ""), 0), "");
}

#[test]
fn preview_image_falls_back_to_the_sized_key() {
    let mut entry = raw("sized-only");
    entry.url_1080_sdr = some("https://apple/a.mov");
    entry.preview_image = some("");
    entry.preview_image_900x580 = some("https://apple/a.png");

    let data = catalog(vec![entry]);
    assert_eq!(data.assets[0].preview_image, "https://apple/a.png");
}

#[test]
fn parse_tolerates_missing_optional_fields() {
    let mut no_label = raw("no-label");
    no_label.url_4k_sdr = some("https://apple/a.mov");
    let mut no_urls = raw("no-urls");
    no_urls.accessibility_label = some("Nowhere");
    let mut shot_id_label = raw("shot-id-label");
    shot_id_label.shot_id = some("GMT026");
    shot_id_label.url_1080_sdr = some("https://apple/b.mov");

    let data = catalog(vec![no_label, no_urls, shot_id_label]);
    assert_eq!(data.assets.len(), 2, "entries without any URL are dropped");
    assert_eq!(data.assets[0].accessibility_label, "no-label");
    assert_eq!(data.assets[0].url_1080_sdr, "");
    assert_eq!(data.assets[1].accessibility_label, "GMT026");
}

#[test]
fn four_k_sdr_prefers_classic_url_and_falls_back_to_240fps() {
    let mut both = raw("both");
    both.url_4k_sdr = some("https://apple/classic.mov");
    both.url_4k_sdr_240fps = some("https://apple/240fps.mov");
    let mut only = raw("240fps-only");
    only.url_4k_sdr_240fps = some("https://apple/only-240fps.mov");

    let data = catalog(vec![both, only]);
    assert_eq!(data.assets.len(), 2, "240FPS-only entries must be retained");
    assert_eq!(data.assets[0].url_4k_sdr, "https://apple/classic.mov");
    assert_eq!(data.assets[1].url_4k_sdr, "https://apple/only-240fps.mov");
}

#[test]
fn normalize_keeps_version_numbers() {
    let mut entry = raw("a");
    entry.url_1080_hdr = some("https://apple/a.mov");
    let data = normalize_manifest(RawAerialManifest {
        version: 1,
        initial_asset_count: 2,
        assets: vec![entry],
    });
    assert_eq!(data.version, 1);
    assert_eq!(data.initial_asset_count, 2);
    assert_eq!(data.assets.len(), 1);
}

#[test]
fn normalize_label_prefers_accessibility_then_shot_then_localized_then_id() {
    let mut all = raw("id-1");
    all.url_1080_sdr = some("u");
    all.accessibility_label = some("Label");
    all.shot_id = some("SHOT");
    all.localized_name_key = some("KEY");
    let mut blank_label = raw("id-2");
    blank_label.url_1080_sdr = some("u");
    blank_label.accessibility_label = some("   ");
    blank_label.localized_name_key = some("KEY");
    let mut nothing = raw("id-3");
    nothing.url_1080_sdr = some("u");
    nothing.shot_id = some("\t\n");

    let data = catalog(vec![all, blank_label, nothing]);
    assert_eq!(data.assets[0].accessibility_label, "Label");
    assert_eq!(data.assets[1].accessibility_label, "KEY");
    assert_eq!(data.assets[2].accessibility_label, "id-3");
}

#[test]
fn normalize_trims_and_lowercases_time_of_day_and_preview() {
    let mut entry = raw("a");
    entry.url_4k_hdr = some("https://apple/a.mov");
    entry.time_of_day = some("  Night ");
    entry.preview_image = some(" https://apple/a.png\n");
    let data = catalog(vec![entry]);
    assert_eq!(data.assets[0].time_of_day, "night");
    assert_eq!(data.assets[0].preview_image, "https://apple/a.png");
    assert_eq!(data.assets[0].url_1080_sdr, "");
    assert_eq!(data.assets[0].url_4k_hdr, "https://apple/a.mov");
}

#[test]
fn normalize_treats_unknown_time_of_day_as_untagged() {
    let mut dusk = raw("x");
    dusk.url_1080_sdr = some("https://a/x.mov");
    dusk.time_of_day = some("Dusk");
    let mut sunset = raw("y");
    sunset.url_1080_sdr = some("https://a/y.mov");
    sunset.time_of_day = some(" SUNSET");
    let data = catalog(vec![dusk, sunset]);
    assert_eq!(data.assets[0].time_of_day, "");
    assert_eq!(data.assets[1].time_of_day, "sunset");
    // An untagged clip stays in every filtered playlist.
    assert!(time_of_day_matches(&data.assets[0].time_of_day, time_filter::DAY, 12));
    assert!(time_of_day_matches(&data.assets[0].time_of_day, time_filter::NIGHT, 12));
}

#[test]
fn normalize_drops_blank_ids_and_blank_urls() {
    let mut blank_id = raw("  ");
    blank_id.url_1080_sdr = some("https://apple/a.mov");
    let mut blank_urls = raw("b");
    blank_urls.url_1080_sdr = some(" ");
    blank_urls.url_4k_hdr = some("");
    let data = catalog(vec![blank_id, blank_urls]);
    assert!(data.assets.is_empty());
}

#[test]
fn quality_url_uses_the_requested_tier_when_present() {
    let mut a = asset("a", "");
    a.url_1080_sdr = "sdr".to_string();
    a.url_1080_hdr = "hdr".to_string();
    a.url_4k_sdr = "4ksdr".to_string();
    a.url_4k_hdr = "4khdr".to_string();
    assert_eq!(quality_url(&a, 0), "sdr");
    assert_eq!(quality_url(&a, 1), "hdr");
    assert_eq!(quality_url(&a, 2), "4ksdr");
    assert_eq!(quality_url(&a, 3), "4khdr");
    assert_eq!(quality_url(&a, 7), "sdr");
    assert_eq!(quality_url(&a, -1), "sdr");
}

#[test]
fn time_of_day_tags_are_compared_trimmed_and_case_folded() {
    assert!(time_of_day_matches(" Day ", time_filter::DAY, 0));
    assert!(!time_of_day_matches("DUSK", time_filter::DAY, 0));
    assert!(!time_of_day_matches("DUSK", time_filter::AUTO, 12));
    assert!(time_of_day_matches("DUSK", time_filter::ALL, 12));
    assert!(time_of_day_matches("   ", time_filter::NIGHT, 12));
}

#[test]
fn hour_only_matters_in_auto_mode() {
    for hour in [-30, -1, 0, 5, 12, 18, 23, 24, 100] {
        assert!(time_of_day_matches("day", time_filter::DAY, hour));
        assert!(!time_of_day_matches("day", time_filter::NIGHT, hour));
    }
    assert!(time_of_day_matches("day", time_filter::AUTO, 5));
    assert!(time_of_day_matches("day", time_filter::AUTO, 17));
    assert!(!time_of_day_matches("day", time_filter::AUTO, 18));
    assert!(!time_of_day_matches("day", time_filter::AUTO, 4));
    assert!(time_of_day_matches("day", time_filter::AUTO, 29));
    assert!(time_of_day_matches("night", time_filter::AUTO, -2));
    assert!(time_of_day_matches("day", time_filter::AUTO, i32::MIN));
}

#[test]
fn filter_live_assets_drops_dead_entries() {
    let assets = vec![asset("live", "https://cdn/live.mov"), asset("dead", "https://cdn/dead.mov")];
    let urls = liveness_urls(&assets, 0);
    assert_eq!(urls, vec!["https://cdn/live.mov".to_string(), "https://cdn/dead.mov".to_string()]);
    let live = keep_live_assets(assets, &[true, false]);
    assert_eq!(live.len(), 1);
    assert_eq!(live[0].id, "live");
}

#[test]
fn filter_live_assets_keeps_all_when_every_check_fails() {
    let assets = vec![asset("a", "https://127.0.0.1:1/a.mov"), asset("b", "https://127.0.0.1:1/b.mov")];
    let live = keep_live_assets(assets, &[false, false]);
    assert_eq!(live.len(), 2);
}

#[test]
fn liveness_urls_follow_the_quality_tier() {
    let mut a = asset("a", "");
    a.url_4k_hdr = "hdr".to_string();
    let b = asset("b", "all");
    let urls = liveness_urls(&vec![a, b], 3);
    assert_eq!(urls, vec!["hdr".to_string(), "all".to_string()]);
}

#[test]
fn usable_catalog_needs_assets() {
    let empty = AerialManifestData {
        version: 1,
        initial_asset_count: 0,
        assets: Vec::new(),
    };
    assert!(usable_catalog(Ok(empty)).is_none());
    assert!(usable_catalog(Err(ManifestError::NoSource)).is_none());
    let full = AerialManifestData {
        version: 1,
        initial_asset_count: 1,
        assets: vec![asset("a", "u")],
    };
    assert_eq!(usable_catalog(Ok(full)).unwrap().assets.len(), 1);
}

#[test]
fn append_tar_chunk_refuses_to_grow_past_the_ceiling() {
    let mut body = vec![0u8; MAX_TAR_BYTES - 2];
    assert!(append_tar_chunk(&mut body, &[1, 2]).is_ok());
    assert_eq!(body.len(), MAX_TAR_BYTES);
    assert!(matches!(
        append_tar_chunk(&mut body, &[3]),
        Err(ManifestError::TooLarge)
    ));
    assert_eq!(body.len(), MAX_TAR_BYTES);
    assert!(append_tar_chunk(&mut body, &[]).is_ok());
}

fn one_asset_catalog(id: &str) -> AerialManifestData {
    AerialManifestData {
        version: 1,
        initial_asset_count: 1,
        assets: vec![asset(id, "https://apple/a.mov")],
    }
}

#[test]
fn the_first_mirror_with_a_catalog_wins() {
    // No mirror at all.
    assert!(matches!(MirrorSearch::start().finish(), Err(ManifestError::NoSource)));

    // The first fails, the second answers: the third is never needed.
    let mut search = MirrorSearch::start();
    search = search.record(Err(ManifestError::MissingEntries));
    assert!(!search.is_done());
    search = search.record(Ok(one_asset_catalog("second")));
    assert!(search.is_done());
    search = search.record(Ok(one_asset_catalog("third")));
    assert_eq!(search.finish().unwrap().assets[0].id, "second");

    // Every mirror fails: the last error is reported.
    let search = MirrorSearch::start()
        .record(Err(ManifestError::TooLarge))
        .record(Err(ManifestError::MissingEntries));
    assert!(matches!(search.finish(), Err(ManifestError::MissingEntries)));
}

#[test]
fn the_tar_buffer_ceiling_is_sixteen_mebibytes() {
    assert_eq!(MAX_TAR_BYTES, 16 * 1024 * 1024);
}

#[test]
fn time_of_day_tags_are_trimmed_of_unicode_white_space() {
    assert!(time_of_day_matches("\u{3000}Day\u{a0}", time_filter::DAY, 0));
    assert!(!time_of_day_matches("\u{2003}night\t", time_filter::DAY, 0));
    assert!(time_of_day_matches("\u{2028}\u{85}", time_filter::NIGHT, 12));
    assert!(!time_of_day_matches("da y", time_filter::DAY, 0));
}
