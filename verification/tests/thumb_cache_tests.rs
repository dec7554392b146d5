//! The preview store's bookkeeping, driven the way the browser drives it:
//! declare a row visible, start whatever reads the cache hands out, and
//! feed each finished read back.

use std::collections::HashMap;

use atomartist_ui::thumb_cache::{
    can_have_thumbnail, ThumbKey, ThumbnailCache, DEFAULT_BYTE_BUDGET, DEFAULT_MAX_ENTRIES,
};
use atomartist_ui::thumbnail::encode_rgb_png;
use atomartist_ui::thumbs::{ThumbState, CACHE_VERSION, DEFAULT_THUMB_SIZE};

fn png(w: u32, h: u32) -> Vec<u8> {
    let rgb = vec![0x40u8; (w as usize) * (h as usize) * 3];
    encode_rgb_png(&rgb, w, h).expect("encode test preview")
}

/// What a read of each URI returns: the package's embedded preview
/// (`None` when it has none), or the provider's error.
#[derive(Default)]
struct Store {
    files: HashMap<String, Result<Option<Vec<u8>>, String>>,
    reads: Vec<String>,
}

impl Store {
    fn put(&mut self, uri: &str, preview: Option<Vec<u8>>) {
        self.files.insert(uri.to_string(), Ok(preview));
    }

    fn read(&mut self, uri: &str) -> Result<Option<Vec<u8>>, String> {
        self.reads.push(uri.to_string());
        self.files
            .get(uri)
            .cloned()
            .unwrap_or_else(|| Err(format!("not found: {uri}")))
    }
}

fn key(uri: &str, stamp: &str) -> ThumbKey {
    ThumbKey::for_entry(uri, Some(stamp), DEFAULT_THUMB_SIZE)
}

/// A request against a provider that settles every read inline.
fn request(cache: &mut ThumbnailCache, store: &mut Store, key: &ThumbKey) -> ThumbState {
    cache.note_request(key.duplicate());
    while let Some(started) = cache.next_start() {
        let result = store.read(&started.uri);
        cache.finish(started, result);
    }
    cache.peek(key)
}

/// A request against a slow provider: reads started are parked in
/// `running` until the caller lands them.
fn request_async(
    cache: &mut ThumbnailCache,
    store: &mut Store,
    running: &mut Vec<ThumbKey>,
    key: &ThumbKey,
) -> ThumbState {
    cache.note_request(key.duplicate());
    while let Some(started) = cache.next_start() {
        store.reads.push(started.uri.clone());
        running.push(started);
    }
    cache.peek(key)
}

/// Land the oldest running read, then start whatever the freed slot
/// allows.
fn land_one(cache: &mut ThumbnailCache, store: &mut Store, running: &mut Vec<ThumbKey>) {
    let done = running.remove(0);
    let result = store.files.get(&done.uri).cloned().unwrap_or(Ok(None));
    cache.finish(done, result);
    while let Some(started) = cache.next_start() {
        store.reads.push(started.uri.clone());
        running.push(started);
    }
}

#[test]
fn a_ready_preview_round_trips_its_dimensions() {
    let mut store = Store::default();
    store.put("mem:///a.atmr", Some(png(256, 192)));
    let mut cache = ThumbnailCache::new();
    let image = match request(&mut cache, &mut store, &key("mem:///a.atmr", "1")) {
        ThumbState::Ready(image) => image,
        other => panic!("expected a decoded preview, got {other:?}"),
    };
    assert_eq!((image.width, image.height), (128, 96));
    assert_eq!(image.rgba.len(), 128 * 96 * 4);
    assert_eq!(image.rgba[3], 255, "opaque source stays opaque");
    assert_eq!(cache.bytes_used(), image.byte_len());
}

#[test]
fn a_new_stamp_misses_the_cache_and_re_reads() {
    let mut store = Store::default();
    store.put("mem:///a.atmr", Some(png(64, 64)));
    let mut cache = ThumbnailCache::new();
    let first = key("mem:///a.atmr", "1");
    assert!(request(&mut cache, &mut store, &first).image().is_some());
    assert_eq!(store.reads.len(), 1);

    assert!(request(&mut cache, &mut store, &first).image().is_some());
    assert_eq!(store.reads.len(), 1, "a hit must not re-read");

    store.put("mem:///a.atmr", Some(png(32, 32)));
    let rewritten = key("mem:///a.atmr", "2");
    let image = request(&mut cache, &mut store, &rewritten)
        .image()
        .cloned()
        .expect("the new bytes decode");
    assert_eq!(store.reads.len(), 2, "a new stamp must re-read");
    assert_eq!((image.width, image.height), (32, 32));
}

#[test]
fn a_version_bump_invalidates_a_cached_entry() {
    let mut store = Store::default();
    store.put("mem:///a.atmr", Some(png(64, 64)));
    let mut cache = ThumbnailCache::new();
    let current = key("mem:///a.atmr", "1");
    assert!(request(&mut cache, &mut store, &current).image().is_some());
    assert!(cache.peek(&current).image().is_some());
    let next_version = ThumbKey {
        version: CACHE_VERSION + 1,
        ..current
    };
    assert_eq!(
        cache.peek(&next_version),
        ThumbState::NotRequested,
        "a bumped CACHE_VERSION must not see the old entry"
    );
}

#[test]
fn absent_and_failed_answers_are_cached_not_re_read() {
    let mut store = Store::default();
    store.put("mem:///plain.atmr", None);
    store.put("mem:///broken.atmr", Some(b"not a png".to_vec()));
    let mut cache = ThumbnailCache::new();
    let no_preview = key("mem:///plain.atmr", "1");
    let foreign = key("mem:///broken.atmr", "1");
    assert_eq!(request(&mut cache, &mut store, &no_preview), ThumbState::Absent);
    assert_eq!(request(&mut cache, &mut store, &foreign), ThumbState::Absent);
    assert_eq!(store.reads.len(), 2);

    for _ in 0..5 {
        cache.begin_frame();
        assert_eq!(request(&mut cache, &mut store, &no_preview), ThumbState::Absent);
        assert_eq!(request(&mut cache, &mut store, &foreign), ThumbState::Absent);
    }
    assert_eq!(store.reads.len(), 2, "negative answers must be served from the cache");
    assert_eq!(cache.bytes_used(), 0, "negative answers cost no pixels");

    let missing = key("mem:///gone.atmr", "x");
    assert!(matches!(
        request(&mut cache, &mut store, &missing),
        ThumbState::Failed(_)
    ));
    let before = store.reads.len();
    cache.begin_frame();
    assert!(matches!(
        request(&mut cache, &mut store, &missing),
        ThumbState::Failed(_)
    ));
    assert_eq!(store.reads.len(), before);
}

#[test]
fn non_package_entries_are_absent_without_any_provider_read() {
    for ext in ["stl", "obj", "txt", ""] {
        assert!(!can_have_thumbnail(false, ext), "{ext} cannot carry a preview");
    }
    assert!(!can_have_thumbnail(true, "atmr"), "a directory never can");
    assert!(can_have_thumbnail(false, "atmr"));
    assert!(can_have_thumbnail(false, "3mf"));
    let cache = ThumbnailCache::new();
    assert_eq!(cache.entry_count(), 0);
}

#[test]
fn lru_eviction_holds_the_byte_budget() {
    let mut store = Store::default();
    let keys: Vec<ThumbKey> = (0..3)
        .map(|i| {
            let uri = format!("mem:///p{i}.atmr");
            store.put(&uri, Some(png(32, 32)));
            key(&uri, "1")
        })
        .collect();
    let one = 32 * 32 * 4;
    let mut cache = ThumbnailCache::with_limits(one * 2, DEFAULT_MAX_ENTRIES, 1);

    assert!(request(&mut cache, &mut store, &keys[0]).image().is_some());
    assert!(request(&mut cache, &mut store, &keys[1]).image().is_some());
    assert_eq!(cache.bytes_used(), one * 2);

    cache.begin_frame();
    assert!(request(&mut cache, &mut store, &keys[0]).image().is_some());
    assert!(request(&mut cache, &mut store, &keys[2]).image().is_some());

    assert_eq!(cache.bytes_used(), one * 2, "the budget is respected");
    assert!(cache.peek(&keys[0]).image().is_some());
    assert!(cache.peek(&keys[2]).image().is_some());
    assert_eq!(
        cache.peek(&keys[1]),
        ThumbState::NotRequested,
        "the least recently used preview is the one evicted"
    );
}

#[test]
fn a_preview_larger_than_the_budget_is_kept_not_re_read_forever() {
    let mut store = Store::default();
    store.put("mem:///a.atmr", Some(png(64, 64)));
    let mut cache = ThumbnailCache::with_limits(16, DEFAULT_MAX_ENTRIES, 1);
    let k = key("mem:///a.atmr", "1");
    assert!(request(&mut cache, &mut store, &k).image().is_some());
    for _ in 0..3 {
        cache.begin_frame();
        assert!(request(&mut cache, &mut store, &k).image().is_some());
    }
    assert_eq!(store.reads.len(), 1, "the entry must survive its own arrival");
}

#[test]
fn the_entry_ceiling_evicts_negative_answers_too() {
    let mut store = Store::default();
    let mut cache = ThumbnailCache::with_limits(DEFAULT_BYTE_BUDGET, 2, 1);
    let keys: Vec<ThumbKey> = (0..3)
        .map(|i| {
            let uri = format!("mem:///n{i}.atmr");
            store.put(&uri, None);
            key(&uri, "1")
        })
        .collect();
    for k in &keys {
        assert_eq!(request(&mut cache, &mut store, k), ThumbState::Absent);
    }
    assert_eq!(cache.entry_count(), 2);
    assert_eq!(cache.peek(&keys[0]), ThumbState::NotRequested);
    assert_eq!(cache.peek(&keys[2]), ThumbState::Absent);
}

#[test]
fn the_in_flight_cap_is_respected() {
    let mut store = Store::default();
    let keys: Vec<ThumbKey> = (0..5)
        .map(|i| {
            let uri = format!("mem:///p{i}.atmr");
            store.put(&uri, Some(png(16, 16)));
            key(&uri, "1")
        })
        .collect();
    let mut running = Vec::new();
    let mut cache = ThumbnailCache::with_limits(DEFAULT_BYTE_BUDGET, DEFAULT_MAX_ENTRIES, 2);
    for k in &keys {
        assert_eq!(request_async(&mut cache, &mut store, &mut running, k), ThumbState::Pending);
    }
    assert_eq!(cache.in_flight(), 2, "only two reads may be out at once");
    assert_eq!(cache.queued(), 3);
    assert_eq!(store.reads.len(), 2);

    for _ in 0..40 {
        if !running.is_empty() {
            land_one(&mut cache, &mut store, &mut running);
        }
        cache.begin_frame();
        for k in &keys {
            request_async(&mut cache, &mut store, &mut running, k);
        }
        assert!(cache.in_flight() <= 2, "the cap holds while draining");
    }
    for k in &keys {
        assert!(cache.peek(k).image().is_some(), "every visible row eventually loads");
    }
}

#[test]
fn a_row_that_stops_being_requested_is_dropped_not_fetched() {
    let mut store = Store::default();
    store.put("mem:///stays.atmr", Some(png(16, 16)));
    store.put("mem:///leaves.atmr", Some(png(16, 16)));
    let visible = key("mem:///stays.atmr", "1");
    let scrolled_away = key("mem:///leaves.atmr", "1");
    let mut running = Vec::new();
    let mut cache = ThumbnailCache::with_limits(DEFAULT_BYTE_BUDGET, DEFAULT_MAX_ENTRIES, 1);
    assert_eq!(request_async(&mut cache, &mut store, &mut running, &visible), ThumbState::Pending);
    assert_eq!(
        request_async(&mut cache, &mut store, &mut running, &scrolled_away),
        ThumbState::Pending
    );
    assert_eq!(cache.in_flight(), 1);
    assert_eq!(cache.queued(), 1);

    for _ in 0..10 {
        cache.begin_frame();
        if !running.is_empty() {
            land_one(&mut cache, &mut store, &mut running);
        }
        request_async(&mut cache, &mut store, &mut running, &visible);
    }

    assert!(cache.peek(&visible).image().is_some());
    assert_eq!(
        cache.peek(&scrolled_away),
        ThumbState::NotRequested,
        "the queued row must be dropped once it stops being requested"
    );
    assert_eq!(store.reads.len(), 1, "the row that scrolled away must never be read");
}

#[test]
fn the_queue_serves_the_most_recent_request_first() {
    let mut store = Store::default();
    for name in ["first", "second", "third"] {
        store.put(&format!("mem:///{name}.atmr"), Some(png(16, 16)));
    }
    let first = key("mem:///first.atmr", "1");
    let second = key("mem:///second.atmr", "1");
    let third = key("mem:///third.atmr", "1");
    let mut running = Vec::new();
    let mut cache = ThumbnailCache::with_limits(DEFAULT_BYTE_BUDGET, DEFAULT_MAX_ENTRIES, 1);
    request_async(&mut cache, &mut store, &mut running, &first);
    request_async(&mut cache, &mut store, &mut running, &second);
    request_async(&mut cache, &mut store, &mut running, &third);
    assert_eq!(cache.queued(), 2);
    assert_eq!(store.reads, vec!["mem:///first.atmr".to_string()]);

    land_one(&mut cache, &mut store, &mut running);
    assert!(cache.peek(&first).image().is_some());
    assert_eq!(
        store.reads,
        vec!["mem:///first.atmr".to_string(), "mem:///third.atmr".to_string()],
        "the freed slot goes to the most recent request, not the oldest"
    );

    cache.begin_frame();
    request_async(&mut cache, &mut store, &mut running, &second);
    assert_eq!(cache.peek(&second), ThumbState::Pending);
    land_one(&mut cache, &mut store, &mut running);
    assert_eq!(store.reads.len(), 3);
    land_one(&mut cache, &mut store, &mut running);
    assert!(cache.peek(&second).image().is_some());
}

#[test]
fn clear_forgets_settled_answers_but_not_running_reads() {
    let mut store = Store::default();
    store.put("mem:///a.atmr", Some(png(16, 16)));
    store.put("mem:///b.atmr", Some(png(16, 16)));
    let a = key("mem:///a.atmr", "1");
    let b = key("mem:///b.atmr", "1");
    let mut running = Vec::new();
    let mut cache = ThumbnailCache::with_limits(DEFAULT_BYTE_BUDGET, DEFAULT_MAX_ENTRIES, 1);
    request_async(&mut cache, &mut store, &mut running, &a);
    land_one(&mut cache, &mut store, &mut running);
    request_async(&mut cache, &mut store, &mut running, &b);
    assert!(cache.peek(&a).image().is_some());
    assert_eq!(cache.peek(&b), ThumbState::Pending);

    cache.clear();
    assert_eq!(cache.bytes_used(), 0);
    assert_eq!(cache.peek(&a), ThumbState::NotRequested);
    assert_eq!(cache.peek(&b), ThumbState::Pending);
    land_one(&mut cache, &mut store, &mut running);
    assert!(cache.peek(&b).image().is_some());
    assert_eq!(cache.bytes_used(), 16 * 16 * 4);
}

#[test]
fn a_zero_size_key_asks_for_one_pixel() {
    let k = ThumbKey::for_entry("mem:///a.atmr", None, 0);
    assert_eq!(k.size, 1);
    assert_eq!(k.version, CACHE_VERSION);
    assert_eq!(k.stamp, None);
}
