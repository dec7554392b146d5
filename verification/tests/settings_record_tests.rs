//! Reading the settings file through the library's record.

use atomartist_ui::favorites::{Favorite, Favorites, MAX_FAVORITES, SEED_NODE_TYPES};
use atomartist_ui::settings::{collect_recent, settings_entries, MainWindowState, MAX_RECENT_PROJECTS};
use atomartist_ui::settings_record::{render_style_from_token, render_style_to_token, RenderStyle, SettingsRecord};

#[test]
fn unknown_lines_and_comments_are_tolerated() {
    let text = "\
        # comment line\n\
        future_setting=42\n\
        perspective=false\n\
        ; not a comment marker we recognise, but it has no =\n\
        \n\
        turntable=on\n\
    ";
    let s = SettingsRecord::from_text(text);
    assert!(!s.perspective);
    assert!(s.turntable);
    assert!(s.show_bed, "everything else is defaulted");
    assert_eq!(s.render_style, None);
    assert_eq!(
        s.shell_lines,
        vec![
            ("future_setting".to_string(), "42".to_string()),
            ("; not a comment marker we recognise, but it has no".to_string(), "".to_string()),
        ],
        "unknown keys are left for the shell, which ignores them"
    );
}

#[test]
fn malformed_values_fall_back_to_defaults() {
    let text = "\
        perspective=maybe\n\
        snap_amount=NotANumber\n\
        render_style=ChunkyShader\n\
    ";
    let s = SettingsRecord::from_text(text);
    assert!(s.perspective);
    assert_eq!(s.render_style, None);
    assert_eq!(s.shell_lines, vec![("snap_amount".to_string(), "NotANumber".to_string())]);
}

#[test]
fn render_styles_round_trip_through_their_tokens() {
    for style in [
        RenderStyle::Shaded,
        RenderStyle::Outlines,
        RenderStyle::NonManifold,
        RenderStyle::Polygons,
        RenderStyle::Overhang,
    ] {
        assert_eq!(render_style_from_token(render_style_to_token(style)), Some(style));
    }
    assert_eq!(render_style_from_token("Wireframe"), Some(RenderStyle::Polygons));
    assert_eq!(render_style_from_token("Non-Manifold"), Some(RenderStyle::NonManifold));
    assert_eq!(render_style_from_token("ChunkyShader"), None);
}

#[test]
fn the_main_window_lines_are_read_by_the_library() {
    let s = SettingsRecord::from_text(
        "main_window_x=-10\nmain_window_y=20\nmain_window_w=800\nmain_window_h=600\nmain_window_maximized=yes\n",
    );
    assert_eq!((s.main_window.x, s.main_window.y), (-10, 20));
    assert_eq!((s.main_window.width, s.main_window.height), (800, 600));
    assert!(s.main_window.maximized);
    assert!(s.shell_lines.is_empty());
}

#[test]
fn parsed_favorites_are_truncated_to_the_cap() {
    let mut text = String::from("favorites_seeded=true\n");
    for i in 0..(MAX_FAVORITES + 20) {
        text.push_str(&format!("favorite_{i}=node_type|T{i}|T{i}\n"));
    }
    let parsed = SettingsRecord::from_text(&text);
    assert_eq!(parsed.favorites.len(), MAX_FAVORITES);
    assert_eq!(parsed.favorites.list()[0].stable_key, "T0");
    assert_eq!(
        parsed.favorites.list()[MAX_FAVORITES - 1].stable_key,
        format!("T{}", MAX_FAVORITES - 1)
    );
}

#[test]
fn old_settings_without_favorites_still_parse() {
    let old = "\
# AtomArtist UI settings
perspective=false
turntable=true
show_bed=true
render_style=Shaded
snap_amount=1
theme=dark
";
    let parsed = SettingsRecord::from_text(old);
    assert!(!parsed.perspective);
    assert_eq!(parsed.render_style, Some(RenderStyle::Shaded));
    assert!(parsed.favorites.is_empty());
    assert!(!parsed.favorites.seeded());
}

#[test]
fn hand_edited_favorites_are_ordered_and_deduped() {
    let text = "\
favorites_seeded=true
favorite_2=node_type|Sphere|Sphere
favorite_0=node_type|Box|Box
favorite_1=node_type|Box|Box duplicate
favorite_3=bogus-line
";
    let parsed = SettingsRecord::from_text(text);
    assert!(parsed.favorites.seeded());
    let keys: Vec<&str> = parsed.favorites.list().iter().map(|f| f.stable_key.as_str()).collect();
    assert_eq!(keys, ["Box", "Sphere"]);
}

#[test]
fn recent_projects_are_truncated_to_the_cap() {
    let over_cap = MAX_RECENT_PROJECTS + 5;
    let text: String = (0..over_cap)
        .rev()
        .map(|i| format!("recent_project_{i}=mem:///p{i}.atmr\n"))
        .collect();
    let record = SettingsRecord::from_text(&text);
    assert_eq!(record.shell_lines.len(), over_cap, "the shell validates each URI");
    let indexed: Vec<(u64, String)> = record
        .shell_lines
        .iter()
        .map(|(k, v)| (k["recent_project_".len()..].parse::<u64>().unwrap(), v.clone()))
        .collect();
    let recent = collect_recent(indexed);
    assert_eq!(recent.len(), MAX_RECENT_PROJECTS);
    assert_eq!(recent[0], "mem:///p0.atmr");
    assert_eq!(recent[MAX_RECENT_PROJECTS - 1], format!("mem:///p{}.atmr", MAX_RECENT_PROJECTS - 1));
}

#[test]
fn repeated_recent_entries_collapse() {
    let recent = collect_recent(vec![
        (2, "mem:///b.atmr".to_string()),
        (0, "mem:///a.atmr".to_string()),
        (1, "mem:///a.atmr".to_string()),
        (3, "mem:///a.atmr".to_string()),
    ]);
    assert_eq!(recent, vec!["mem:///a.atmr", "mem:///b.atmr", "mem:///a.atmr"]);
}

#[test]
fn lines_split_on_newlines_and_trim() {
    let pairs = settings_entries("  a = 1 \r\n#x=2\nb=\n=c\n d=e=f");
    assert_eq!(
        pairs,
        vec![
            ("a".to_string(), "1".to_string()),
            ("b".to_string(), "".to_string()),
            ("".to_string(), "c".to_string()),
            ("d".to_string(), "e=f".to_string()),
        ]
    );
}

/// Registry display names for the seed palette, as the shell looks them up.
fn seed_names() -> Vec<Option<String>> {
    SEED_NODE_TYPES.iter().map(|id| Some(id.to_string())).collect()
}

fn project(uri: &str, name: &str) -> Favorite {
    Favorite::project(uri, Some(name))
}

#[test]
fn defaults_round_trip_through_text() {
    let s = SettingsRecord::default();
    let text = s.to_text();
    let parsed = SettingsRecord::from_text(&text);
    assert_eq!(s, parsed);
    assert_eq!(SettingsRecord::from_text(""), s, "an empty file reads as the defaults");
}

#[test]
fn non_default_values_round_trip() {
    let s = SettingsRecord {
        perspective: false,
        turntable: false,
        show_bed: false,
        render_style: Some(RenderStyle::Overhang),
        main_window: MainWindowState { x: 250, y: 180, width: 1600, height: 900, maximized: true },
        favorites: Favorites::from_parts(vec![Favorite::node_type("Box", "Box")], true),
        favorites_bar_expanded: true,
        shell_lines: vec![
            ("snap_amount".to_string(), "0.25".to_string()),
            ("debug_inspector_open".to_string(), "true".to_string()),
            ("debug_inspector_x".to_string(), "100".to_string()),
            ("theme".to_string(), "dark".to_string()),
            ("accent_color".to_string(), "purple".to_string()),
            ("last_project_path".to_string(), "file:///C:/users/bob/projects/widget.atmr".to_string()),
            ("recent_project_0".to_string(), "file:///C:/users/bob/projects/widget.atmr".to_string()),
            ("recent_project_1".to_string(), "mem:///projects/older.atmr".to_string()),
        ],
    };
    let parsed = SettingsRecord::from_text(&s.to_text());
    assert_eq!(s, parsed);
}

#[test]
fn the_written_text_is_exact() {
    let mut s = SettingsRecord::default();
    s.render_style = Some(RenderStyle::Polygons);
    s.main_window = MainWindowState { x: -5, y: 7, width: 640, height: 480, maximized: false };
    s.favorites.add(Favorite::node_type("Box", "Box"));
    s.shell_lines.push(("theme".to_string(), "light".to_string()));
    assert_eq!(
        s.to_text(),
        "# AtomArtist UI settings\n\
         perspective=true\n\
         turntable=true\n\
         show_bed=true\n\
         render_style=Polygons\n\
         main_window_x=-5\n\
         main_window_y=7\n\
         main_window_w=640\n\
         main_window_h=480\n\
         main_window_maximized=false\n\
         favorites_bar_expanded=false\n\
         favorites_seeded=false\n\
         favorite_0=node_type|Box|Box\n\
         theme=light\n"
    );
}

#[test]
fn favorites_round_trip_through_settings_text() {
    let mut settings = SettingsRecord::default();
    settings.favorites.seed_defaults_once(&seed_names());
    settings.favorites.add(project("mem:///projects/pinned.atmr", "pinned"));

    let reloaded = SettingsRecord::from_text(&settings.to_text());
    assert_eq!(reloaded.favorites, settings.favorites);
    assert_eq!(reloaded, settings);
}

#[test]
fn user_emptied_row_stays_empty_across_reload() {
    let names = seed_names();
    let mut settings = SettingsRecord::default();
    settings.favorites.seed_defaults_once(&names);
    settings.favorites.clear();
    assert!(settings.favorites.is_empty());
    assert!(settings.favorites.seeded());

    let mut reloaded = SettingsRecord::from_text(&settings.to_text());
    assert!(reloaded.favorites.is_empty());
    assert!(reloaded.favorites.seeded());
    assert!(!reloaded.favorites.seed_defaults_once(&names));
    assert!(reloaded.favorites.is_empty());
}

#[test]
fn newlines_in_a_favorite_cannot_inject_settings_lines() {
    let mut settings = SettingsRecord::default();
    assert!(!settings.favorites.seeded());
    settings.favorites.add(Favorite::node_type("Box", "evil\nfavorites_seeded=true\r\nperspective=false"));

    let text = settings.to_text();
    assert_eq!(
        text.lines().filter(|l| l.starts_with("favorite_")).count(),
        1,
        "the favorite must occupy exactly one physical line: {text}"
    );

    let reloaded = SettingsRecord::from_text(&text);
    assert_eq!(reloaded.favorites.len(), 1);
    assert_eq!(reloaded.favorites, settings.favorites);
    assert!(!reloaded.favorites.seeded(), "injected a settings line");
    assert!(reloaded.perspective, "injected a settings line");
}

#[test]
fn padded_names_survive_the_settings_text() {
    let fav = project("mem:///projects/ padded .atmr", " padded ");
    let mut settings = SettingsRecord::default();
    settings.favorites.add(fav.clone());
    let reloaded = SettingsRecord::from_text(&settings.to_text());
    assert_eq!(reloaded.favorites.list(), &[fav]);
}

#[test]
fn dead_favorites_are_not_pruned_on_reload() {
    let mut settings = SettingsRecord::default();
    settings.favorites.mark_seeded();
    settings.favorites.add(Favorite::node_type("NoSuchNodeType", "Ghost"));

    let reloaded = SettingsRecord::from_text(&settings.to_text());
    assert_eq!(reloaded.favorites.len(), 1);
    let fav = &reloaded.favorites.list()[0];
    assert_eq!(fav.stable_key, "NoSuchNodeType");
    assert_eq!(fav.display_name, "Ghost");
}

#[test]
fn a_name_ending_in_an_unescaped_space_character_loses_it() {
    let mut settings = SettingsRecord::default();
    settings.favorites.add(Favorite::node_type("Box", "Box\u{0c}"));
    let reloaded = SettingsRecord::from_text(&settings.to_text());
    assert_eq!(reloaded.favorites.list()[0].display_name, "Box", "the line trim takes the form feed");
}
