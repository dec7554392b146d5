//! Favorites data model: dedupe, cap, removal, reordering, seeding and
//! the one-line field encoding.

use atomartist_ui::favorites::{
    escape_field, split_escaped_once, unescape_field, Favorite, FavoriteResolution, FavoriteKind, Favorites,
    MAX_FAVORITES, SEED_NODE_TYPES,
};

fn keys(favs: &Favorites) -> Vec<&str> {
    favs.list().iter().map(|f| f.stable_key.as_str()).collect()
}

#[test]
fn add_dedupes_by_kind_and_key() {
    let mut favs = Favorites::default();
    assert!(favs.add(Favorite::node_type("Box", "Box")));
    // Same key, different display name → still a duplicate.
    assert!(!favs.add(Favorite::node_type("Box", "Cube")));
    assert_eq!(favs.len(), 1);
    assert_eq!(favs.list()[0].display_name, "Box");

    // Same *string* key under a different kind is a different entry.
    assert!(favs.add(Favorite {
        kind: FavoriteKind::Project,
        stable_key: "Box".into(),
        display_name: "Box".into(),
    }));
    assert_eq!(favs.len(), 2);
    assert!(!favs.add(Favorite::node_type("", "empty")));
}

#[test]
fn add_stops_at_the_cap() {
    let mut favs = Favorites::default();
    for i in 0..MAX_FAVORITES {
        assert!(favs.add(Favorite::node_type(&format!("T{i}"), "t")));
    }
    assert!(!favs.add(Favorite::node_type("overflow", "o")));
    assert_eq!(favs.len(), MAX_FAVORITES);
}

#[test]
fn remove_reports_whether_anything_matched() {
    let mut favs = Favorites::default();
    favs.add(Favorite::node_type("Box", "Box"));
    favs.add(Favorite::node_type("Sphere", "Sphere"));

    assert!(favs.remove(FavoriteKind::NodeType, "Box"));
    assert!(!favs.contains(FavoriteKind::NodeType, "Box"));
    assert_eq!(favs.len(), 1);
    // Already gone, and the wrong kind for the survivor.
    assert!(!favs.remove(FavoriteKind::NodeType, "Box"));
    assert!(!favs.remove(FavoriteKind::Project, "Sphere"));
    assert_eq!(favs.len(), 1);
}

#[test]
fn move_favorite_reorders_and_rejects_out_of_bounds() {
    let mut favs = Favorites::default();
    for id in ["A", "B", "C"] {
        favs.add(Favorite::node_type(id, id));
    }

    // Drag the last entry to the front.
    assert!(favs.move_favorite(2, 0));
    assert_eq!(keys(&favs), ["C", "A", "B"]);

    // Middle to the end.
    assert!(favs.move_favorite(1, 2));
    assert_eq!(keys(&favs), ["C", "B", "A"]);

    // No-ops and out-of-range indices leave the row untouched.
    assert!(!favs.move_favorite(1, 1));
    assert!(!favs.move_favorite(3, 0));
    assert!(!favs.move_favorite(0, 3));
    assert_eq!(keys(&favs), ["C", "B", "A"]);
}

/// Display names may contain the field separator.
#[test]
fn display_name_with_separator_survives_the_field_encoding() {
    let fav = Favorite::node_type("Box", "Box | Cube");
    let parsed = Favorite::from_field(&fav.to_field()).expect("parses");
    assert_eq!(parsed, fav);
}

#[test]
fn malformed_favorite_fields_are_dropped() {
    assert!(Favorite::from_field("").is_none());
    assert!(Favorite::from_field("node_type").is_none());
    // Unknown kind (e.g. written by a newer build) is not coerced.
    assert!(Favorite::from_field("folder|mem:///a|A").is_none());
    // Empty stable key carries no identity.
    assert!(Favorite::from_field("node_type||A").is_none());
    // A missing display name is fine — the resolver supplies one.
    let parsed = Favorite::from_field("node_type|Box").expect("parses");
    assert_eq!(parsed.display_name, "");
    // Malformed escapes are ambiguous payload; drop the line.
    assert!(Favorite::from_field("node_type|Bo\\x|Box").is_none());
    assert!(Favorite::from_field("node_type|Box|Box\\").is_none());
}

#[test]
fn stable_key_with_separator_round_trips() {
    let fav = Favorite {
        kind: FavoriteKind::Project,
        stable_key: "mem:///projects/a|b.atmr".to_string(),
        display_name: "a|b".to_string(),
    };
    let parsed = Favorite::from_field(&fav.to_field()).expect("parses");
    assert_eq!(parsed, fav);
}

#[test]
fn newlines_in_a_favorite_stay_on_one_line() {
    let fav = Favorite::node_type("Box", "evil\nfavorites_seeded=true\r\nperspective=false");
    let field = fav.to_field();
    assert!(!field.contains('\n'));
    assert!(!field.contains('\r'));
    assert_eq!(Favorite::from_field(&field), Some(fav));
}

#[test]
fn surrounding_whitespace_in_keys_and_names_survives() {
    let fav = Favorite {
        kind: FavoriteKind::Project,
        stable_key: "mem:///projects/ padded .atmr".to_string(),
        display_name: " padded ".to_string(),
    };
    let parsed = Favorite::from_field(&fav.to_field()).expect("parses");
    assert_eq!(parsed, fav);
}

#[test]
fn the_field_encoding_is_exact() {
    let fav = Favorite {
        kind: FavoriteKind::Project,
        stable_key: "a|b\\c".to_string(),
        display_name: "x y\tz".to_string(),
    };
    assert_eq!(fav.to_field(), "project|a\\|b\\\\c|x\\sy\\tz");
    assert_eq!(escape_field("\n\r"), "\\n\\r");
    assert_eq!(unescape_field("\\s\\t\\|"), Some(" \t|".to_string()));
    assert_eq!(unescape_field("\\q"), None);
    assert_eq!(unescape_field("ab\\"), None);
}

#[test]
fn the_kind_token_is_trimmed_before_lookup() {
    let parsed = Favorite::from_field("  node_type \t|Box|Box").expect("parses");
    assert_eq!(parsed.kind, FavoriteKind::NodeType);
    assert_eq!(parsed.stable_key, "Box");
}

#[test]
fn splitting_honours_escapes() {
    assert_eq!(split_escaped_once("a\\|b|c"), Some(("a\\|b", "c")));
    assert_eq!(split_escaped_once("abc"), None);
    assert_eq!(split_escaped_once("ab\\"), None);
    assert_eq!(split_escaped_once("|"), Some(("", "")));
}

#[test]
fn kinds_have_stable_tokens() {
    assert_eq!(FavoriteKind::NodeType.key(), "node_type");
    assert_eq!(FavoriteKind::Project.key(), "project");
    assert_eq!(FavoriteKind::from_key("project"), Some(FavoriteKind::Project));
    assert_eq!(FavoriteKind::from_key("Project"), None);
}

#[test]
fn from_parts_dedupes_and_caps_in_order() {
    let mut items = Vec::new();
    items.push(Favorite::node_type("Box", "Box"));
    items.push(Favorite::node_type("Box", "Box duplicate"));
    items.push(Favorite::node_type("Sphere", "Sphere"));
    for i in 0..(MAX_FAVORITES + 20) {
        items.push(Favorite::node_type(&format!("T{i}"), "t"));
    }
    let favs = Favorites::from_parts(items, true);
    assert!(favs.seeded());
    assert_eq!(favs.len(), MAX_FAVORITES);
    assert_eq!(favs.list()[0].display_name, "Box");
    assert_eq!(favs.list()[1].stable_key, "Sphere");
    assert_eq!(favs.list()[2].stable_key, "T0");
}

#[test]
fn seeding_fills_the_palette_once_and_survives_clearing() {
    let names: Vec<Option<String>> = SEED_NODE_TYPES
        .iter()
        .map(|id| if *id == "Torus" { None } else { Some(id.to_string()) })
        .collect();
    let mut favs = Favorites::default();
    assert!(!favs.seeded());
    assert!(favs.seed_defaults_once(&names));
    assert!(favs.seeded());
    assert_eq!(keys(&favs), ["Box", "Cylinder", "Sphere", "Cone", "Pyramid", "Wedge"]);
    assert!(favs.list().iter().all(|f| f.kind == FavoriteKind::NodeType));

    // A second attempt is a no-op, and a user-emptied row stays empty.
    favs.clear();
    assert!(favs.is_empty());
    assert!(!favs.seed_defaults_once(&names));
    assert!(favs.is_empty());
    assert!(favs.seeded());
}

#[test]
fn mark_seeded_opts_out_of_seeding() {
    let mut favs = Favorites::default();
    favs.mark_seeded();
    let names: Vec<Option<String>> = SEED_NODE_TYPES.iter().map(|id| Some(id.to_string())).collect();
    assert!(!favs.seed_defaults_once(&names));
    assert!(favs.is_empty());
}

#[test]
fn position_finds_the_identity() {
    let mut favs = Favorites::default();
    favs.add(Favorite::node_type("A", "A"));
    favs.add(Favorite::node_type("B", "B"));
    assert_eq!(favs.position(FavoriteKind::NodeType, "B"), Some(1));
    assert_eq!(favs.position(FavoriteKind::Project, "B"), None);
    assert!(Favorite::node_type("A", "x").matches(FavoriteKind::NodeType, "A"));
}

#[test]
fn project_favorite_names_itself_after_the_file_stem() {
    let fav = Favorite::project("file:///C:/users/bob/projects/widget.atmr", Some("widget"));
    assert_eq!(fav.kind, FavoriteKind::Project);
    assert_eq!(fav.display_name, "widget");
    assert_eq!(fav.stable_key, "file:///C:/users/bob/projects/widget.atmr".to_string());
    let bare = Favorite::project("mem:///", None);
    assert_eq!(bare.display_name, "mem:///", "no stem: the URI labels itself");
}

#[test]
fn node_type_favorites_resolve_against_the_real_registry() {
    let live = Favorite::node_type("Box", "stale label");
    // The registry knows "Box" and names it "Box".
    match live.resolve(Some("Box"), None) {
        FavoriteResolution::NodeType { display_name } => assert_eq!(display_name, "Box"),
        other => panic!("expected a live node type, got {other:?}"),
    }
    assert_eq!(live.effective_display_name(Some("Box"), None), "Box");

    let dead = Favorite::node_type("NoSuchNodeType", "Ghost");
    assert!(!dead.resolve(None, None).is_alive());
    assert_eq!(dead.effective_display_name(None, None), "Ghost");
}

#[test]
fn project_favorites_resolve_by_parsing_their_uri() {
    let live = Favorite::project("mem:///projects/pinned.atmr", Some("pinned"));
    match live.resolve(None, Some(Some("pinned"))) {
        FavoriteResolution::Project { uri, display_name } => {
            assert_eq!(uri, "mem:///projects/pinned.atmr");
            assert_eq!(display_name, "pinned");
        }
        other => panic!("expected a project, got {other:?}"),
    }

    let broken = Favorite {
        kind: FavoriteKind::Project,
        stable_key: "not a uri".into(),
        display_name: "Pinned".into(),
    };
    // The key does not parse as a URI.
    assert!(!broken.resolve(None, None).is_alive());
    assert_eq!(broken.effective_display_name(None, None), "Pinned");

    let stemless = Favorite::project("mem:///", None);
    assert_eq!(
        stemless.resolve(None, Some(None)),
        FavoriteResolution::Project { uri: "mem:///".to_string(), display_name: "mem:///".to_string() }
    );
}
