use gallery::index::collect_images;
use gallery::index::hash_bytes;
use gallery::index::Change;
use gallery::index::CollectionError;
use gallery::index::Image;
use gallery::index::ImageHash;
use gallery::index::IndexError;
use gallery::index::Indexer;
use gallery::index::ScanEntry;

fn hash(n: u64) -> ImageHash {
    ImageHash { hi: n, lo: n.wrapping_mul(31) }
}

fn image(path: &str) -> Image {
    Image { path: path.to_string() }
}

fn paths(snapshot: &[Image]) -> Vec<String> {
    snapshot.iter().map(|im| im.path.clone()).collect()
}

#[test]
fn new_index_is_empty() {
    let ix = Indexer::new();
    assert!(ix.index().is_empty());
}

#[test]
fn add_image_appends_and_returns_addition() {
    let mut ix = Indexer::new();
    let change = ix.add_image(hash(1), image("a.jpg")).unwrap();
    assert!(matches!(change, Change::Addition { image } if image.path == "a.jpg"));
    ix.add_image(hash(2), image("b.jpg")).unwrap();
    assert_eq!(paths(&ix.index()), vec!["a.jpg".to_string(), "b.jpg".to_string()]);
}

#[test]
fn add_image_rejects_duplicate_content() {
    let mut ix = Indexer::new();
    ix.add_image(hash(1), image("a.jpg")).unwrap();
    let r = ix.add_image(hash(1), image("other.jpg"));
    assert!(matches!(r, Err(IndexError::Duplicate { path }) if path == "a.jpg"));
    assert_eq!(paths(&ix.index()), vec!["a.jpg".to_string()]);
}

#[test]
fn add_image_rejects_duplicate_path() {
    let mut ix = Indexer::new();
    ix.add_image(hash(1), image("a.jpg")).unwrap();
    let r = ix.add_image(hash(2), image("a.jpg"));
    assert!(matches!(r, Err(IndexError::Duplicate { path }) if path == "a.jpg"));
}

#[test]
fn rescan_reports_exact_differences() {
    // Mutations: add A, add B, delete A — each observed by a rescan.
    let mut ix = Indexer::new();
    let mut added: Vec<String> = Vec::new();
    let mut deleted: Vec<String> = Vec::new();
    let mut record = |change: Option<Change>| {
        if let Some(Change::Update { additions, deletions }) = change {
            added.extend(additions.iter().map(|im| im.path.clone()));
            deleted.extend(deletions.iter().map(|im| im.path.clone()));
        }
    };

    record(ix.rescan(vec![(hash(1), image("a.jpg"))]));
    record(ix.rescan(vec![(hash(1), image("a.jpg")), (hash(2), image("b.jpg"))]));
    record(ix.rescan(vec![(hash(2), image("b.jpg"))]));

    assert_eq!(paths(&ix.index()), vec!["b.jpg".to_string()]);
    assert_eq!(added, vec!["a.jpg".to_string(), "b.jpg".to_string()]);
    assert_eq!(deleted, vec!["a.jpg".to_string()]);
}

#[test]
fn rescan_with_no_difference_emits_nothing() {
    let mut ix = Indexer::new();
    let first = ix.rescan(vec![(hash(1), image("a.jpg"))]);
    assert!(first.is_some());
    let second = ix.rescan(vec![(hash(1), image("a.jpg"))]);
    assert!(second.is_none());
}

#[test]
fn insert_then_rescan_does_not_announce_again() {
    let mut ix = Indexer::new();
    ix.add_image(hash(1), image("a.jpg")).unwrap();
    let change = ix.rescan(vec![(hash(1), image("a.jpg"))]);
    assert!(change.is_none());
}

#[test]
fn subscribe_then_snapshot_sees_current_state() {
    let mut ix = Indexer::new();
    ix.add_image(hash(1), image("a.jpg")).unwrap();
    let (_sub, snapshot) = ix.subscribe_then_snapshot();
    assert_eq!(paths(&snapshot), vec!["a.jpg".to_string()]);
}

fn entry(path: &str, is_dir: bool, h: u64) -> ScanEntry {
    ScanEntry { path: path.to_string(), is_dir, hash: hash(h) }
}

#[test]
fn collect_skips_directories_and_foreign_files() {
    let listing = vec![
        entry("a.jpg", false, 1),
        entry("nested", true, 2),
        entry("notes.txt", false, 3),
        entry("B.PNG", false, 4),
        entry("c.HeIc", false, 5),
        entry("d.jpeg", false, 6),
        entry("noext", false, 7),
    ];
    let collected = collect_images(listing).unwrap();
    let got: Vec<String> = collected.iter().map(|(_, im)| im.path.clone()).collect();
    assert_eq!(
        got,
        vec![
            "a.jpg".to_string(),
            "B.PNG".to_string(),
            "c.HeIc".to_string(),
            "d.jpeg".to_string()
        ]
    );
}

#[test]
fn collect_rejects_duplicate_content() {
    let listing = vec![entry("a.jpg", false, 1), entry("b.jpg", false, 1)];
    let r = collect_images(listing);
    assert!(matches!(r, Err(CollectionError::Duplicate { path }) if path == "b.jpg"));
}

#[test]
fn collect_ignores_duplicate_hash_on_ineligible_files() {
    let listing = vec![entry("a.jpg", false, 1), entry("a.txt", false, 1)];
    let collected = collect_images(listing).unwrap();
    assert_eq!(collected.len(), 1);
}

#[test]
fn hash_bytes_is_deterministic_and_content_sensitive() {
    let a = vec![1u8, 2, 3, 4];
    let b = vec![1u8, 2, 3, 5];
    assert_eq!(hash_bytes(&a), hash_bytes(&a));
    assert_ne!(hash_bytes(&a), hash_bytes(&b));
    assert_ne!(hash_bytes(&Vec::new()), hash_bytes(&a));
}
