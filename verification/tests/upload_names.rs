use gallery::paths::has_supported_extension;
use gallery::paths::is_clean_relative;
use gallery::paths::join_path;
use gallery::upload::format_timestamp;
use gallery::upload::upload_file_name;
use gallery::upload::Timestamp;

fn moment() -> Timestamp {
    Timestamp { year: 2026, month: 10, day: 12, hour: 15, minute: 30, second: 5 }
}

#[test]
fn timestamp_is_zero_padded() {
    assert_eq!(format_timestamp(&moment()), "20261012T153005Z");
    let early = Timestamp { year: 980, month: 1, day: 2, hour: 3, minute: 4, second: 9 };
    assert_eq!(format_timestamp(&early), "09800102T030409Z");
}

#[test]
fn upload_name_prefixes_the_stamp() {
    assert_eq!(upload_file_name(&moment(), Some("cat.jpg")), "20261012T153005Z_cat.jpg");
    assert_eq!(upload_file_name(&moment(), None), "20261012T153005Z");
}

#[test]
fn join_inserts_one_separator() {
    assert_eq!(join_path("storage", "a/b.jpg"), "storage/a/b.jpg");
    assert_eq!(join_path("cache", "x.png"), "cache/x.png");
}

#[test]
fn clean_relative_paths_are_recognised() {
    assert!(is_clean_relative("a/b.jpg"));
    assert!(is_clean_relative("a.b/c.jpg"));
    // Dots inside a component are ordinary name characters.
    assert!(is_clean_relative("a..b.jpg"));
    assert!(is_clean_relative("..hidden/c.jpg"));
    assert!(is_clean_relative("a.../b.jpg"));
    assert!(!is_clean_relative(""));
    assert!(!is_clean_relative("/etc/passwd"));
    assert!(!is_clean_relative("a/../b.jpg"));
    assert!(!is_clean_relative(".."));
    assert!(!is_clean_relative("../b.jpg"));
    assert!(!is_clean_relative("a/.."));
}

#[test]
fn supported_extensions_are_case_insensitive() {
    assert!(has_supported_extension("a.jpg"));
    assert!(has_supported_extension("a.JPG"));
    assert!(has_supported_extension("photo.jpeg"));
    assert!(has_supported_extension("b.PnG"));
    assert!(has_supported_extension("c.HEIC"));
    assert!(has_supported_extension("dir.v2/d.heic"));
}

#[test]
fn unsupported_extensions_are_refused() {
    assert!(!has_supported_extension("a.gif"));
    assert!(!has_supported_extension("a.txt"));
    assert!(!has_supported_extension("jpg"));
    assert!(!has_supported_extension("a."));
    assert!(!has_supported_extension(""));
    assert!(!has_supported_extension("a.jpg.bak"));
}
