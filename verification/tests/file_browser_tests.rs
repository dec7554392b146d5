use atomartist_ui::file_browser::{
    accent_of, drag_glyph, format_modified, DragGlyph, key_action, press_action, takes_keys, BrowserKey, KeyAction, KeyMods, PressAction,
    PressHits, resolve_save_name, with_forced_extension, BrowserMode, EntryAccent,
    FileBrowserModalHandle, FileBrowserModalHost, PROJECT_EXTENSION,
};
use atomartist_ui::icons::IconKind;

#[test]
fn only_save_mode_shows_a_name_field() {
    assert!(!BrowserMode::Open.shows_name_field());
    assert!(BrowserMode::Save.shows_name_field());
    assert!(!BrowserMode::Embedded.shows_name_field());
}

#[test]
fn modes_name_themselves() {
    assert_eq!(BrowserMode::Open.as_str(), "Open");
    assert_eq!(BrowserMode::Save.as_str(), "Save");
    assert_eq!(BrowserMode::Embedded.as_str(), "Embedded");
}

#[test]
fn plain_enums_compare_by_variant() {
    assert_ne!(EntryAccent::Folder, EntryAccent::Mesh);
    assert_eq!(IconKind::DropdownChevron, IconKind::DropdownChevron);
}

fn save(name: &str) -> Option<String> {
    resolve_save_name(name, "atmr")
}

#[test]
fn save_mode_joins_the_name_onto_the_current_directory() {
    assert_eq!(save("design").as_deref(), Some("design.atmr"));
    assert_eq!(save("  design  ").as_deref(), Some("design.atmr"));
}

#[test]
fn save_mode_forces_the_project_extension() {
    assert_eq!(save("Version 1.2").as_deref(), Some("Version 1.2.atmr"));
    assert_eq!(save("design.").as_deref(), Some("design.atmr"));
    assert_eq!(save(".atmr").as_deref(), Some(".atmr.atmr"));
    assert_eq!(save("bracket.atmr").as_deref(), Some("bracket.atmr"));
    assert_eq!(save("BRACKET.ATMR").as_deref(), Some("BRACKET.ATMR"));
    assert_eq!(save("design.stl").as_deref(), Some("design.stl.atmr"));
    for name in ["Version 1.2", "design.", ".atmr", "bracket.atmr", "BRACKET.ATMR"] {
        let resolved = save(name).expect("every case above resolves");
        assert!(
            resolved.to_ascii_lowercase().ends_with(".atmr") && resolved.len() > ".atmr".len(),
            "`{name}` must resolve to something the app reads as a project"
        );
    }
}

#[test]
fn save_mode_refuses_empty_traversing_and_path_like_names() {
    assert_eq!(save(""), None);
    assert_eq!(save("   "), None);
    assert_eq!(save("../escape"), None);
    assert_eq!(save("."), None);
    assert_eq!(save("..."), None);
    assert_eq!(save("docs/inner"), None);
    assert_eq!(save("docs\\inner"), None);
}

#[test]
fn an_export_picker_forces_its_own_extension() {
    let chars: Vec<char> = "part".chars().collect();
    assert_eq!(with_forced_extension(&chars, "stl").as_deref(), Some("part.stl"));
    let chars: Vec<char> = "part.STL".chars().collect();
    assert_eq!(with_forced_extension(&chars, "stl").as_deref(), Some("part.STL"));
    let chars: Vec<char> = ".stl".chars().collect();
    assert_eq!(with_forced_extension(&chars, "stl").as_deref(), Some(".stl.stl"));
}

#[test]
fn format_modified_renders_a_civil_date() {
    assert_eq!(format_modified(0), "1970-01-01");
    assert_eq!(format_modified(1_000_000_000_000), "2001-09-09");
    assert_eq!(format_modified(1_709_164_800_000), "2024-02-29");
}

#[test]
fn format_modified_pads_and_rolls_over_years() {
    assert_eq!(format_modified(86_400_000 * 31), "1970-02-01");
    assert_eq!(format_modified(86_400_000 * 365 - 1), "1970-12-31");
    assert_eq!(format_modified(86_400_000 * 365), "1971-01-01");
    assert_eq!(format_modified(253_402_300_800_000), "10000-01-01");
}

#[test]
fn a_second_open_while_one_is_queued_is_refused_as_cancelled() {
    let mut handle = FileBrowserModalHandle::new();
    assert!(!handle.is_open());
    assert!(handle.open(BrowserMode::Open, ""), "the first request waits for the host");
    assert!(handle.is_open());

    assert!(
        !handle.open(BrowserMode::Save, "other"),
        "a stacked open fails rather than reading as a user cancellation"
    );
    let first = handle.take_request().expect("and leaves the first one alone");
    assert_eq!(first.mode, BrowserMode::Open);
    assert_eq!(first.extension, PROJECT_EXTENSION);
    assert!(!handle.is_open());
}

#[test]
fn the_dialog_on_screen_also_refuses_a_second_request() {
    let mut handle = FileBrowserModalHandle::new();
    assert!(handle.open_with_extension(BrowserMode::Save, "part", "stl"));
    let request = handle.take_request().expect("queued");
    assert_eq!(request.default_name, "part");
    assert_eq!(request.extension, "stl");
    handle.set_open(true);
    assert!(handle.is_open());
    assert!(!handle.open(BrowserMode::Open, ""));
    handle.set_open(false);
    assert!(handle.open(BrowserMode::Open, ""));
}

/// The scene's mesh import formats, as the shell registers them.
const MESH_IMPORTS: [&str; 3] = ["stl", "3mf", "obj"];

#[test]
fn accents_distinguish_folder_mesh_and_file() {
    assert_eq!(accent_of(true, "", &MESH_IMPORTS), EntryAccent::Folder);
    assert_eq!(accent_of(false, "stl", &MESH_IMPORTS), EntryAccent::Mesh);
    assert_eq!(accent_of(false, "3mf", &MESH_IMPORTS), EntryAccent::Mesh);
    assert_eq!(accent_of(false, "atmr", &MESH_IMPORTS), EntryAccent::File);
    assert_eq!(accent_of(false, "txt", &MESH_IMPORTS), EntryAccent::File);
    assert_eq!(accent_of(true, "stl", &MESH_IMPORTS), EntryAccent::Folder, "a folder named like a mesh");
}

#[test]
fn the_host_opens_only_at_layout_and_one_dialog_at_a_time() {
    let mut handle = FileBrowserModalHandle::new();
    let mut host = FileBrowserModalHost::new();
    assert_eq!(host.claim_pending(&mut handle), None, "nothing asked for");
    assert!(handle.open(BrowserMode::Open, ""));
    assert!(!host.is_showing(), "a request waits for the next layout");
    let request = host.claim_pending(&mut handle).expect("the waiting request");
    assert_eq!(request.mode, BrowserMode::Open);
    assert!(host.is_showing());
    assert!(handle.is_open());
    assert!(!handle.open(BrowserMode::Save, "x"), "a second dialog is refused while one is up");
    assert_eq!(host.settle_if_closed(&mut handle, false), None, "still up");
}

#[test]
fn double_clicking_a_file_in_open_mode_is_pressing_open() {
    let mut handle = FileBrowserModalHandle::new();
    let mut host = FileBrowserModalHost::new();
    handle.open(BrowserMode::Open, "");
    host.claim_pending(&mut handle);
    assert!(!host.activate(true, "mem:///projects"), "a folder is navigated, not picked");
    assert!(host.activate(false, "mem:///a.atmr"));
    assert_eq!(host.settle_if_closed(&mut handle, false), Some(Some("mem:///a.atmr".to_string())));
    assert!(!host.is_showing());
    assert!(!handle.is_open(), "the handle is free for the next request");
}

#[test]
fn in_save_mode_a_double_click_is_not_a_confirm() {
    let mut handle = FileBrowserModalHandle::new();
    let mut host = FileBrowserModalHost::new();
    handle.open(BrowserMode::Save, "untitled");
    host.claim_pending(&mut handle);
    assert!(!host.activate(false, "mem:///a.atmr"));
    assert!(!host.confirm(None), "a refused pick never closes the dialog");
    assert_eq!(host.settle_if_closed(&mut handle, false), None);
    assert!(host.confirm(Some("mem:///untitled.atmr".to_string())));
    assert_eq!(host.settle_if_closed(&mut handle, false), Some(Some("mem:///untitled.atmr".to_string())));
}

#[test]
fn cancelling_or_a_settled_job_closes_with_no_pick() {
    let mut handle = FileBrowserModalHandle::new();
    let mut host = FileBrowserModalHost::new();
    handle.open(BrowserMode::Open, "");
    host.claim_pending(&mut handle);
    host.cancel();
    assert_eq!(host.settle_if_closed(&mut handle, false), Some(None), "cancelled");

    handle.open(BrowserMode::Open, "");
    host.claim_pending(&mut handle);
    assert_eq!(host.settle_if_closed(&mut handle, true), Some(None), "the asker gave up");
    assert!(!host.is_showing());
}

const NO_MODS: KeyMods = KeyMods { alt: false, ctrl: false, meta: false, shift: false };
const ALT: KeyMods = KeyMods { alt: true, ..NO_MODS };

#[test]
fn only_the_modal_faces_take_keys() {
    assert!(takes_keys(BrowserMode::Open));
    assert!(takes_keys(BrowserMode::Save));
    assert!(!takes_keys(BrowserMode::Embedded));
    assert_eq!(key_action(BrowserMode::Embedded, BrowserKey::ArrowLeft, ALT, true, false), KeyAction::Ignored);
    assert_eq!(key_action(BrowserMode::Embedded, BrowserKey::Escape, NO_MODS, true, false), KeyAction::Ignored);
}

#[test]
fn alt_left_alone_goes_back() {
    assert_eq!(key_action(BrowserMode::Open, BrowserKey::ArrowLeft, ALT, false, true), KeyAction::GoBack);
    let ctrl_alt = KeyMods { ctrl: true, ..ALT };
    assert_eq!(key_action(BrowserMode::Open, BrowserKey::ArrowLeft, ctrl_alt, false, true), KeyAction::Ignored);
    assert_eq!(key_action(BrowserMode::Open, BrowserKey::ArrowLeft, NO_MODS, false, true), KeyAction::Ignored);
}

#[test]
fn escape_clears_a_search_before_it_closes_the_sheet() {
    assert_eq!(key_action(BrowserMode::Save, BrowserKey::Escape, NO_MODS, true, false), KeyAction::ClearSearch);
    assert_eq!(key_action(BrowserMode::Save, BrowserKey::Escape, NO_MODS, true, true), KeyAction::Ignored, "nothing to clear");
    assert_eq!(key_action(BrowserMode::Save, BrowserKey::Escape, NO_MODS, false, false), KeyAction::Ignored, "unfocused: the sheet's");
    assert_eq!(key_action(BrowserMode::Save, BrowserKey::Other, NO_MODS, true, false), KeyAction::Ignored);
}

const MISS: PressHits =
    PressHits { sidebar_row: None, search_clear: false, back: false, crumb_bar: false, crumb: None, entry: None, grid: false };

#[test]
fn presses_follow_the_chrome_in_priority_order() {
    assert_eq!(press_action(MISS, true, 1), PressAction::Ignored);
    assert_eq!(press_action(PressHits { sidebar_row: Some(1), grid: true, ..MISS }, true, 1), PressAction::OpenRoot(1));
    assert_eq!(press_action(PressHits { search_clear: true, ..MISS }, false, 1), PressAction::ClearSearch);
    assert_eq!(press_action(PressHits { search_clear: true, ..MISS }, true, 1), PressAction::Ignored, "no search, no clear button");
    assert_eq!(press_action(PressHits { back: true, grid: true, ..MISS }, true, 1), PressAction::GoBack);
    assert_eq!(press_action(PressHits { crumb_bar: true, crumb: Some(0), ..MISS }, true, 1), PressAction::OpenCrumb(0));
    assert_eq!(press_action(PressHits { crumb_bar: true, ..MISS }, true, 1), PressAction::Swallow);
    assert_eq!(press_action(PressHits { grid: true, ..MISS }, true, 1), PressAction::ClearSelection);
}

#[test]
fn only_exactly_the_second_click_activates() {
    let on_cell = PressHits { entry: Some(3), grid: true, ..MISS };
    assert_eq!(press_action(on_cell, true, 1), PressAction::PickEntry { index: 3, activate: false });
    assert_eq!(press_action(on_cell, true, 2), PressAction::PickEntry { index: 3, activate: true });
    assert_eq!(press_action(on_cell, true, 3), PressAction::PickEntry { index: 3, activate: false });
}

#[test]
fn only_importable_files_can_be_dragged() {
    let importable = ["stl", "3mf", "obj", "mcx"];
    assert_eq!(drag_glyph(true, "stl", &importable, &MESH_IMPORTS), None, "folders do not drag");
    assert_eq!(drag_glyph(false, "stl", &importable, &MESH_IMPORTS), Some(DragGlyph::Mesh));
    assert_eq!(drag_glyph(false, "mcx", &importable, &MESH_IMPORTS), Some(DragGlyph::File));
    assert_eq!(drag_glyph(false, "txt", &importable, &MESH_IMPORTS), None, "not importable");
}
