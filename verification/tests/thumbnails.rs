use std::collections::hash_map::DefaultHasher;
use std::hash::{Hash, Hasher};
use std::path::Path;

use tobyscope_x11::cache::{
    cache_directory, cache_key, display_key, is_cache_file, is_metadata_file,
    sanitize_path_component, CacheEntry, ThumbnailCache, ThumbnailMetadata, CACHE_FORMAT_VERSION,
};
use tobyscope_x11::windows::{WindowGeometry, WindowInfo};

fn window(id: u32, con_id: Option<i64>) -> WindowInfo {
    WindowInfo {
        id,
        name: "mail".to_string(),
        instance: None,
        class: Some("Mail".to_string()),
        workspace: "3".to_string(),
        workspace_num: Some(3),
        i3_con_id: con_id,
        tree_order: 0,
        urgent: false,
        focused: false,
        geometry: WindowGeometry { x: 0, y: 0, width: 640, height: 480, depth: 24, visual: 33 },
    }
}

fn metadata(window_id: u32, con_id: Option<i64>, key: &str) -> ThumbnailMetadata {
    ThumbnailMetadata {
        format_version: CACHE_FORMAT_VERSION,
        key: key.to_string(),
        display: ":0".to_string(),
        window_id,
        i3_con_id: con_id,
        workspace: "3".to_string(),
        title: "mail".to_string(),
        class: None,
        width: 640,
        height: 480,
    }
}

fn native_key(display: &str, id: u32, con_id: Option<i64>) -> String {
    let mut hasher = DefaultHasher::new();
    display.to_string().hash(&mut hasher);
    CACHE_FORMAT_VERSION.hash(&mut hasher);
    id.hash(&mut hasher);
    con_id.hash(&mut hasher);
    format!("{:016x}", hasher.finish())
}

fn cache(windows: &[WindowInfo], stored: Vec<ThumbnailMetadata>) -> ThumbnailCache {
    ThumbnailCache::new(windows, ":0".to_string(), &stored, 60, false)
}

fn entry(age_ns: Option<u128>, metadata: Option<ThumbnailMetadata>) -> CacheEntry {
    CacheEntry { present: true, age_ns, metadata }
}

fn missing() -> CacheEntry {
    CacheEntry { present: false, age_ns: Some(0), metadata: None }
}

#[test]
fn keys_are_the_native_hashes() {
    for (display, id, con_id) in [
        (":0", 0u32, None),
        (":1.0", 0x0140_0003, Some(94_123_456_789_012i64)),
        ("", u32::MAX, Some(-1)),
        ("höst:0", 7, Some(i64::MIN)),
        ("unknown-display", 1, Some(0)),
    ] {
        assert_eq!(cache_key(display, &window(id, con_id)), native_key(display, id, con_id));
    }
}

#[test]
fn the_display_has_a_stand_in() {
    assert_eq!(display_key(Some(":2".to_string())), ":2");
    assert_eq!(display_key(None), "unknown-display");
    assert_eq!(cache_directory(), "tobyscope-x11");
}

#[test]
fn directory_names_are_plain() {
    assert_eq!(sanitize_path_component(":0.0"), "_0.0");
    assert_eq!(sanitize_path_component("a/../ä b-C_9"), "a_..___b-C_9");
    assert_eq!(sanitize_path_component("a_..___b-C_9"), "a_..___b-C_9");
    assert_eq!(sanitize_path_component(""), "");
}

#[test]
fn extensions_are_those_of_native_paths() {
    for name in ["a.png", "a.json", ".png", "png", "a.b.json", "a.", "..", "...png", "a.PNG", "x.tmp"] {
        let native = Path::new(name).extension().and_then(|value| value.to_str());
        assert_eq!(is_cache_file(name), matches!(native, Some("png" | "json")));
        assert_eq!(is_metadata_file(name), native == Some("json"));
    }
}

#[test]
fn pruning_removes_what_no_window_needs() {
    let windows = [window(1, Some(10)), window(2, None)];
    let stored = vec![metadata(1, Some(10), "oldkey"), metadata(9, None, "gonekey")];
    let cache = cache(&windows, stored);
    let own = native_key(":0", 2, None);
    let names: Vec<String> = vec![
        format!("{own}.png"),
        format!("{own}.json"),
        "oldkey.png".to_string(),
        "gonekey.png".to_string(),
        "gonekey.json".to_string(),
        "notes.txt".to_string(),
        ".png".to_string(),
    ];
    assert_eq!(cache.prune(&names), vec!["gonekey.png".to_string(), "gonekey.json".to_string()]);
    assert_eq!(cache.valid_keys.len(), 3);
}

#[test]
fn a_window_is_looked_up_under_all_its_keys() {
    let windows = [window(1, Some(10)), window(2, None)];
    let own = native_key(":0", 1, Some(10));
    let stored = vec![
        metadata(1, Some(10), "first"),
        metadata(2, None, "other"),
        metadata(1, Some(11), "wrong"),
        metadata(1, Some(10), "second"),
    ];
    let cache = cache(&windows, stored);
    assert_eq!(
        cache.keys(&windows[0]),
        vec![own, "first".to_string(), "second".to_string()]
    );
    assert_eq!(cache.png_path_for_key("first"), "first.png");
    assert_eq!(cache.metadata_path_for_key("first"), "first.json");
}

#[test]
fn keys_are_kept_once() {
    let windows = [window(1, None), window(1, None)];
    let own = native_key(":0", 1, None);
    let cache = cache(&windows, vec![metadata(1, None, &own)]);
    assert_eq!(cache.valid_keys, vec![own]);
}

#[test]
fn stored_thumbnails_are_fresh_until_they_age() {
    let windows = [window(1, Some(10))];
    let cache = cache(&windows, vec![]);
    let plan = cache.store(&windows[0], 4242);
    let key = native_key(":0", 1, Some(10));
    assert_eq!(plan.image, format!("{key}.png"));
    assert_eq!(plan.image_temporary, format!("{key}.4242.tmp"));
    assert_eq!(plan.metadata_file, format!("{key}.json"));
    assert_eq!(plan.metadata_temporary, format!("{key}.4242.json.tmp"));
    assert_eq!(plan.metadata.format_version, 2);
    assert_eq!(plan.metadata.key, key);
    assert_eq!(plan.metadata.display, ":0");
    assert_eq!((plan.metadata.window_id, plan.metadata.i3_con_id), (1, Some(10)));
    assert_eq!(plan.metadata.workspace, "3");
    assert_eq!(plan.metadata.title, "mail");
    assert_eq!(plan.metadata.class.as_deref(), Some("Mail"));
    assert_eq!((plan.metadata.width, plan.metadata.height), (640, 480));
    let limit = 60_000_000_000u128;
    let fresh = vec![entry(Some(limit), Some(plan.metadata))];
    assert!(!cache.needs_refresh(&windows[0], &fresh));
    let mut renamed = window(1, Some(10));
    renamed.name = "news".to_string();
    renamed.workspace = "9".to_string();
    assert_eq!(cache.keys(&renamed)[0], key);
    assert!(!cache.needs_refresh(&renamed, &fresh));
    renamed.geometry.height += 1;
    assert!(cache.needs_refresh(&renamed, &fresh));
    let old = entry(Some(limit + 1), Some(metadata(1, Some(10), &key)));
    assert!(cache.needs_refresh(&windows[0], &vec![old]));
}

#[test]
fn changed_thumbnails_are_taken_again() {
    let it = window(1, None);
    let cache = cache(&[window(1, None)], vec![]);
    let good = || metadata(1, None, "k");
    assert_eq!(cache.cached_entry_needs_refresh(&it, &missing()), None);
    assert_eq!(cache.cached_entry_needs_refresh(&it, &entry(None, Some(good()))), Some(false));
    assert_eq!(cache.cached_entry_needs_refresh(&it, &entry(Some(1), None)), Some(true));
    let other = ThumbnailMetadata { format_version: 0, ..good() };
    assert_eq!(cache.cached_entry_needs_refresh(&it, &entry(Some(1), Some(other))), Some(true));
    let wider = ThumbnailMetadata { width: 641, ..good() };
    assert_eq!(cache.cached_entry_needs_refresh(&it, &entry(Some(1), Some(wider))), Some(true));
    let lower = ThumbnailMetadata { height: 1, ..good() };
    assert_eq!(cache.cached_entry_needs_refresh(&it, &entry(Some(1), Some(lower))), Some(true));
}

#[test]
fn the_first_thumbnail_that_is_there_decides() {
    let it = window(1, None);
    let cache = cache(&[window(1, None)], vec![]);
    let good = || entry(Some(0), Some(metadata(1, None, "k")));
    let bad = || entry(Some(0), None);
    assert!(cache.needs_refresh(&it, &vec![]));
    assert!(cache.needs_refresh(&it, &vec![missing(), missing()]));
    assert!(!cache.needs_refresh(&it, &vec![missing(), good(), bad()]));
    assert!(cache.needs_refresh(&it, &vec![bad(), good()]));
}
