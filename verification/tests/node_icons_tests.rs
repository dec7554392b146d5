//! The palette icon cache.

use std::sync::Arc;

use atomartist_ui::favorites::SEED_NODE_TYPES;
use atomartist_ui::mesh_raster::{IconImage, ICON_SIZE};
use atomartist_ui::node_icons::NodeIconCache;

/// A stand-in render: a blank `size × size` icon for every known type,
/// nothing for a type the registry does not have.
fn render_at(size: u32) -> impl Fn(&str) -> Option<IconImage> {
    move |id: &str| {
        if id == "NoSuchNodeType" {
            None
        } else {
            let n = (size * size * 4) as usize;
            Some(IconImage { width: size, height: size, rgba: Arc::new(vec![0u8; n]) })
        }
    }
}

#[test]
fn render_next_fills_the_cache_one_type_at_a_time() {
    let mut cache = NodeIconCache::new();
    let ids: Vec<&str> = SEED_NODE_TYPES.to_vec();
    let before = ids.iter().filter(|id| cache.is_resolved(id, ICON_SIZE)).count();
    if before < ids.len() {
        assert!(cache.render_next(&ids, ICON_SIZE, render_at(ICON_SIZE)), "there was work to do");
        let after = ids.iter().filter(|id| cache.is_resolved(id, ICON_SIZE)).count();
        assert_eq!(after, before + 1, "one call resolves exactly one type");
    }
    for _ in 0..ids.len() {
        cache.render_next(&ids, ICON_SIZE, render_at(ICON_SIZE));
    }
    assert!(!cache.render_next(&ids, ICON_SIZE, render_at(ICON_SIZE)), "a full cache does no work");
    for id in &ids {
        assert!(cache.icon(id, ICON_SIZE).is_some(), "`{id}` should have a cached icon");
    }
}

#[test]
fn the_pixel_size_is_part_of_the_cache_key() {
    const ODD_SIZE: u32 = 37;
    let mut cache = NodeIconCache::new();
    cache.render_next(&["Box"], ICON_SIZE, render_at(ICON_SIZE));
    assert!(!cache.is_resolved("Box", ODD_SIZE));
    assert!(cache.render_next(&["Box"], ODD_SIZE, render_at(ODD_SIZE)));

    let small = cache.icon("Box", ODD_SIZE).expect("a Box icon at the odd size");
    assert_eq!((small.width, small.height), (ODD_SIZE, ODD_SIZE));
    assert!(
        cache.icon("Box", ICON_SIZE).map_or(true, |big| big.width == ICON_SIZE),
        "sizes must not alias in the cache"
    );
}

#[test]
fn a_failed_render_is_cached_and_not_retried() {
    let mut cache = NodeIconCache::new();
    assert!(cache.render_next(&["NoSuchNodeType", "Box"], ICON_SIZE, render_at(ICON_SIZE)));
    assert!(cache.is_resolved("NoSuchNodeType", ICON_SIZE), "the failure is remembered");
    assert!(cache.icon("NoSuchNodeType", ICON_SIZE).is_none());
    assert!(!cache.is_resolved("Box", ICON_SIZE), "one type per call");
    assert!(cache.render_next(&["NoSuchNodeType", "Box"], ICON_SIZE, render_at(ICON_SIZE)));
    assert!(cache.icon("Box", ICON_SIZE).is_some(), "the next call moves on to the next type");
}

#[test]
fn recording_replaces_an_earlier_outcome() {
    let mut cache = NodeIconCache::new();
    cache.record("Box", ICON_SIZE, None);
    assert!(cache.is_resolved("Box", ICON_SIZE));
    assert!(cache.icon("Box", ICON_SIZE).is_none());
    cache.record("Box", ICON_SIZE, render_at(ICON_SIZE)("Box"));
    assert_eq!(cache.icon("Box", ICON_SIZE).map(|i| i.width), Some(ICON_SIZE));
    assert!(cache.icon("Box", ICON_SIZE + 1).is_none());
}

#[test]
fn a_cached_icon_shares_its_pixels() {
    let mut cache = NodeIconCache::new();
    let original = render_at(4)("Box").unwrap();
    cache.record("Box", 4, Some(original.clone()));
    let served = cache.icon("Box", 4).unwrap();
    assert!(Arc::ptr_eq(&served.rgba, &original.rgba));
    assert_eq!(served, original);
}
