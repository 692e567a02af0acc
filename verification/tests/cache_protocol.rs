use gallery::cache::decide_build;
use gallery::cache::BuildDecision;
use gallery::cache::InFlight;
use gallery::debounce::Debouncer;

#[test]
fn decision_table() {
    assert!(matches!(decide_build(true, false), BuildDecision::Fetch));
    assert!(matches!(decide_build(true, true), BuildDecision::Fetch));
    assert!(matches!(decide_build(false, true), BuildDecision::Wait));
    assert!(matches!(decide_build(false, false), BuildDecision::Build));
}

#[test]
fn in_flight_grants_one_builder_per_path() {
    let mut markers = InFlight::new();
    let dest = "a/b.jpg".to_string();
    assert!(markers.try_begin(&dest));
    assert!(!markers.try_begin(&dest));
    assert!(markers.try_begin(&"other.jpg".to_string()));
    markers.finish(&dest);
    assert!(!markers.contains(&dest));
    assert!(markers.contains(&"other.jpg".to_string()));
    assert!(markers.try_begin(&dest));
}

/// The build-or-fetch protocol run over a plain in-memory store: the
/// first request builds once, every later request fetches the same bytes
/// and writes nothing.
#[test]
fn build_or_fetch_is_idempotent() {
    let mut store: Vec<(String, Vec<u8>)> = Vec::new();
    let mut markers = InFlight::new();
    let dest = "thumb.jpg".to_string();
    let mut transforms = 0;
    let mut writes = 0;
    let mut results: Vec<Vec<u8>> = Vec::new();

    for _ in 0..3 {
        let cached = store.iter().find(|(p, _)| *p == dest).map(|(_, b)| b.clone());
        match decide_build(cached.is_some(), markers.contains(&dest)) {
            BuildDecision::Fetch => results.push(cached.unwrap()),
            BuildDecision::Build => {
                assert!(markers.try_begin(&dest));
                transforms += 1;
                let bytes = vec![9u8, 9, 9];
                store.push((dest.clone(), bytes.clone()));
                writes += 1;
                markers.finish(&dest);
                results.push(bytes);
            }
            BuildDecision::Wait => unreachable!(),
        }
    }

    assert_eq!(transforms, 1);
    assert_eq!(writes, 1);
    assert_eq!(results, vec![vec![9u8, 9, 9]; 3]);
}

/// Two interleaved requests for one uncached path: the second is told to
/// wait while the first builds, and fetches the first's bytes afterward.
#[test]
fn concurrent_requests_deduplicate_work() {
    let mut store: Vec<(String, Vec<u8>)> = Vec::new();
    let mut markers = InFlight::new();
    let dest = "thumb.jpg".to_string();

    // First caller wins the build.
    assert!(matches!(decide_build(false, markers.contains(&dest)), BuildDecision::Build));
    assert!(markers.try_begin(&dest));

    // Second caller arrives while the build is in flight.
    assert!(matches!(decide_build(false, markers.contains(&dest)), BuildDecision::Wait));

    // The builder completes: exactly one transform, one write.
    store.push((dest.clone(), vec![7u8]));
    markers.finish(&dest);

    // The waiting caller retries and fetches the built bytes.
    let cached = store.iter().find(|(p, _)| *p == dest).map(|(_, b)| b.clone());
    assert!(matches!(decide_build(cached.is_some(), markers.contains(&dest)), BuildDecision::Fetch));
    assert_eq!(cached.unwrap(), vec![7u8]);
}

#[test]
fn fifty_rapid_events_fire_once() {
    let mut debouncer = Debouncer::new(1000);
    for t in 0..50u64 {
        debouncer.note_event(t);
    }
    // Polls inside the window fire nothing.
    let mut fires = 0;
    for t in [100u64, 500, 1048] {
        if debouncer.poll(t) {
            fires += 1;
        }
    }
    assert_eq!(fires, 0);
    // The deadline armed by the last event (49 + 1000) passes: one fire.
    for t in [1049u64, 1050, 2000, 3000] {
        if debouncer.poll(t) {
            fires += 1;
        }
    }
    assert_eq!(fires, 1);
}

#[test]
fn debounce_rearms_after_fire() {
    let mut debouncer = Debouncer::new(10);
    debouncer.note_event(0);
    assert!(!debouncer.poll(9));
    assert!(debouncer.poll(10));
    assert!(!debouncer.poll(11));
    debouncer.note_event(20);
    assert!(debouncer.poll(30));
}
