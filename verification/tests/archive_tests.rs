use aerial_core::archive::{extract_entries_json, is_entries_member, MAX_ENTRIES_JSON_BYTES};
use aerial_core::manifest::ManifestError;

fn resources_tar(members: &[(&str, &[u8])]) -> Vec<u8> {
    let mut builder = tar::Builder::new(Vec::new());
    for (name, contents) in members {
        let mut header = tar::Header::new_gnu();
        header.set_size(contents.len() as u64);
        header.set_mode(0o644);
        header.set_cksum();
        builder
            .append_data(&mut header, name, *contents)
            .expect("in-memory tar append must succeed");
    }
    builder.into_inner().expect("tar finish must succeed")
}

#[test]
fn resource_tar_without_entries_json_is_an_error() {
    let tar = resources_tar(&[("README.txt", b"nothing to see here")]);
    assert!(matches!(
        extract_entries_json(&tar),
        Err(ManifestError::MissingEntries)
    ));
}

const ENTRIES: &str = r#"{"assets": [{"id": "009BA758-7060-4479-8EE8-FB9B40C8FB97", "accessibilityLabel": "Korea and Japan Night"}]}"#;

#[test]
fn extracts_entries_json_from_resource_tar() {
    let tar = resources_tar(&[
        (
            "TVIdleScreenStringsBundle.bundle/en.lproj/Localizable.nocache.strings",
            b"\"KEY\" = \"Value\";",
        ),
        ("entries.json", ENTRIES.as_bytes()),
    ]);
    let body = extract_entries_json(&tar).expect("tar must parse");
    assert_eq!(body, ENTRIES);
    assert!(body.contains("Korea and Japan Night"));
}

#[test]
fn extracts_the_first_entries_json_in_any_directory() {
    let tar = resources_tar(&[
        ("bundle/entries.json", b"first"),
        ("entries.json", b"second"),
    ]);
    assert_eq!(extract_entries_json(&tar).unwrap(), "first");
}

#[test]
fn empty_archive_has_no_entries() {
    assert!(matches!(
        extract_entries_json(&[]),
        Err(ManifestError::MissingEntries)
    ));
}

#[test]
fn corrupt_archive_is_a_tar_error() {
    assert!(matches!(
        extract_entries_json(&[7u8; 1024]),
        Err(ManifestError::Tar(_))
    ));
}

#[test]
fn entries_member_that_is_not_utf8_is_a_tar_error() {
    let tar = resources_tar(&[("entries.json", &[0xff, 0xfe, 0x00])]);
    assert!(matches!(
        extract_entries_json(&tar),
        Err(ManifestError::Tar(_))
    ));
}

#[test]
fn member_names_are_matched_by_file_name() {
    assert!(is_entries_member(b"entries.json"));
    assert!(is_entries_member(b"a/b/entries.json"));
    assert!(is_entries_member(b"./entries.json"));
    assert!(is_entries_member(b"entries.json/"));
    assert!(is_entries_member(b"entries.json/."));
    assert!(is_entries_member(b"entries.json/.//"));
    assert!(!is_entries_member(b"entries.json.bak"));
    assert!(!is_entries_member(b"my-entries.json"));
    assert!(!is_entries_member(b"entries.json/.."));
    assert!(!is_entries_member(b"."));
    assert!(!is_entries_member(b""));
    assert!(!is_entries_member(b"/"));
}

#[test]
fn the_entries_json_read_limit_is_sixteen_mebibytes() {
    assert_eq!(MAX_ENTRIES_JSON_BYTES, 16 * 1024 * 1024);
}
