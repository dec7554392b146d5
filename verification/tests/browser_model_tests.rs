use atomartist_ui::file_browser::{resolve_pick, BrowserMode, PickTarget, PROJECT_EXTENSION};
use atomartist_ui::browser_model::{
    breadcrumb_trail, provider_label, sort_entries, BrowserModel, Crumb, EntryInfo, Listing, ProviderRoot,
    NO_PROVIDERS,
};

fn root(scheme: &str, display_name: &str) -> ProviderRoot {
    ProviderRoot { scheme: scheme.to_string(), display_name: display_name.to_string(), root: format!("{scheme}:///") }
}

fn memory_root() -> ProviderRoot {
    root("mem", "Memory")
}

fn file(path: &str) -> EntryInfo {
    EntryInfo {
        uri: format!("mem://{path}"),
        name: path.rsplit('/').next().unwrap_or(path).to_string(),
        is_dir: false,
    }
}

fn dir(path: &str) -> EntryInfo {
    EntryInfo { is_dir: true, ..file(path) }
}

fn names(model: &BrowserModel) -> Vec<String> {
    model.visible_entries().into_iter().map(|e| e.name).collect()
}

/// A model on the root, with `entries` landed for its first refresh.
fn opened_on(entries: Vec<EntryInfo>) -> BrowserModel {
    let mut model = BrowserModel::new(vec![memory_root()]);
    let (_, generation) = model.begin_refresh().expect("a provider is registered");
    model.apply_listing(generation, Ok(entries));
    model
}

#[test]
fn a_registry_with_no_providers_reports_an_error_not_a_blank_pane() {
    let mut model = BrowserModel::new(Vec::new());
    assert_eq!(model.cwd(), None);
    assert_eq!(model.listing(), Listing::Error(NO_PROVIDERS.to_string()));
    assert_eq!(model.begin_refresh(), None);
    assert!(model.visible_entries().is_empty());
    assert!(model.breadcrumbs(&[], "", "").is_empty());
}

#[test]
fn entries_sort_directories_first_then_case_insensitively() {
    let model = opened_on(vec![
        file("/zebra.atmr"),
        file("/Apple.atmr"),
        dir("/beta"),
        dir("/Alpha"),
        file("/apple.atmr"),
    ]);
    assert_eq!(names(&model), vec!["Alpha", "beta", "Apple.atmr", "apple.atmr", "zebra.atmr"]);
}

#[test]
fn sorting_keeps_every_entry() {
    let sorted = sort_entries(vec![file("/b"), file("/a"), file("/b"), dir("/c")]);
    let names: Vec<&str> = sorted.iter().map(|e| e.name.as_str()).collect();
    assert_eq!(names, vec!["c", "a", "b", "b"]);
}

#[test]
fn an_empty_directory_reports_empty() {
    let mut model = opened_on(vec![file("/a.atmr")]);
    let (_, generation) = model.navigate_to("mem:///empty".to_string());
    model.apply_listing(generation, Ok(Vec::new()));
    assert_eq!(model.listing(), Listing::Empty);
    assert!(model.visible_entries().is_empty());
}

#[test]
fn a_failed_listing_becomes_an_error_state() {
    let mut model = opened_on(Vec::new());
    let (_, generation) = model.navigate_to("mem:///no-such-dir".to_string());
    model.apply_listing(generation, Err("not found: /no-such-dir".to_string()));
    match model.listing() {
        Listing::Error(message) => assert!(!message.is_empty()),
        other => panic!("expected an error listing, got {other:?}"),
    }
}

#[test]
fn search_filters_the_current_listing_case_insensitively() {
    let mut model = opened_on(vec![file("/Bracket.atmr"), file("/bracket-v2.atmr"), file("/gear.atmr")]);
    model.set_search("BRACK");
    assert_eq!(names(&model), vec!["bracket-v2.atmr", "Bracket.atmr"]);
    assert_eq!(model.listing().entries().len(), 3, "the filter must not destroy the listing");

    model.set_search("nothing-matches");
    assert!(names(&model).is_empty());

    model.set_search("");
    assert_eq!(names(&model).len(), 3);
}

#[test]
fn navigation_clears_the_search_and_the_selection() {
    let mut model = opened_on(vec![dir("/projects"), file("/gear.atmr")]);
    model.set_search("gear");
    model.select(Some("mem:///gear.atmr".to_string()));
    assert_eq!(model.selected_entry().map(|e| e.name), Some("gear.atmr".to_string()));

    let (dir_uri, generation) = model.navigate_to("mem:///projects".to_string());
    assert_eq!(dir_uri, "mem:///projects");
    model.apply_listing(generation, Ok(vec![file("/projects/a.atmr")]));
    assert_eq!(model.search(), "");
    assert_eq!(model.selected(), None);
    assert_eq!(names(&model), vec!["a.atmr"]);
}

#[test]
fn a_slow_listing_shows_loading_until_it_lands() {
    let mut model = BrowserModel::new(vec![memory_root()]);
    let (_, generation) = model.begin_refresh().expect("a provider is registered");
    assert_eq!(model.listing(), Listing::Loading);
    assert!(model.listing().is_loading());
    model.apply_listing(generation, Ok(vec![file("/a.atmr")]));
    assert_eq!(names(&model), vec!["a.atmr"]);
}

#[test]
fn a_stale_listing_never_replaces_the_current_one() {
    let mut model = opened_on(vec![dir("/slow"), dir("/quick")]);
    let (_, slow) = model.navigate_to("mem:///slow".to_string());
    let (_, quick) = model.navigate_to("mem:///quick".to_string());
    model.apply_listing(quick, Ok(vec![file("/quick/from-quick.atmr")]));
    model.apply_listing(slow, Ok(vec![file("/slow/from-slow.atmr")]));
    assert_eq!(model.cwd(), Some("mem:///quick".to_string()));
    assert_eq!(names(&model), vec!["from-quick.atmr"], "the abandoned directory's entries must be dropped");
}

#[test]
fn a_stale_failure_cannot_overwrite_a_good_listing() {
    let mut model = opened_on(Vec::new());
    let (_, missing) = model.navigate_to("mem:///missing".to_string());
    let (_, good) = model.navigate_to("mem:///good".to_string());
    model.apply_listing(good, Ok(vec![file("/good/x.atmr")]));
    model.apply_listing(missing, Err("not found".to_string()));
    assert_eq!(names(&model), vec!["x.atmr"]);
}

#[test]
fn a_refresh_during_a_refresh_keeps_only_the_newer_result() {
    let mut model = BrowserModel::new(vec![memory_root()]);
    let (_, first) = model.begin_refresh().expect("listed");
    let (_, second) = model.begin_refresh().expect("listed");
    assert_eq!(model.generation(), second);
    model.apply_listing(second, Ok(vec![file("/a.atmr")]));
    model.apply_listing(first, Ok(Vec::new()));
    assert_eq!(names(&model), vec!["a.atmr"]);
}

#[test]
fn selection_is_single_and_resolves_against_the_listing() {
    let mut model = opened_on(vec![file("/a.atmr"), file("/b.atmr")]);
    model.select(Some("mem:///a.atmr".to_string()));
    model.select(Some("mem:///b.atmr".to_string()));
    assert_eq!(model.selected(), Some("mem:///b.atmr".to_string()));
    assert_eq!(model.selected_entry().map(|e| e.name), Some("b.atmr".to_string()));

    model.select(Some("mem:///vanished.atmr".to_string()));
    assert_eq!(model.selected_entry(), None);

    model.select(None);
    assert_eq!(model.selected(), None);
}

#[test]
fn only_a_directory_can_be_entered() {
    let mut model = opened_on(vec![dir("/projects"), file("/a.atmr")]);
    let before = model.generation();
    assert_eq!(model.enter_dir(&file("/a.atmr")), None);
    assert_eq!(model.generation(), before);
    let (uri, generation) = model.enter_dir(&dir("/projects")).expect("a directory opens");
    assert_eq!(uri, "mem:///projects");
    assert_eq!(generation, before + 1, "the request is the fresh refresh's");
    assert_eq!(generation, model.generation());
    assert_eq!(model.listing(), Listing::Loading);
    model.apply_listing(generation, Ok(vec![file("/projects/b.atmr")]));
    assert_eq!(names(&model), vec!["b.atmr"], "its listing lands");
}

#[test]
fn roots_follow_registration_order() {
    let model = BrowserModel::new(vec![memory_root(), root("other", "Other Store")]);
    let roots = model.roots();
    assert_eq!(roots.iter().map(|r| r.scheme.as_str()).collect::<Vec<_>>(), vec!["mem", "other"]);
    assert_eq!(roots[1].display_name, "Other Store");
    assert_eq!(roots[0].root, "mem:///");
    assert_eq!(model.cwd(), Some("mem:///".to_string()), "the browser opens on the first provider");
}

#[test]
fn breadcrumbs_run_from_the_provider_root_to_the_cwd() {
    let mut model = BrowserModel::new(vec![memory_root()]);
    assert_eq!(
        model.breadcrumbs(&[], "mem:///", "mem"),
        vec![Crumb { label: "Memory".to_string(), uri: "mem:///".to_string() }]
    );

    model.navigate_to("mem:///projects/2026".to_string());
    // The walk up from the cwd, nearest first, as the URI's parents give it.
    let ancestry = [
        ("mem:///projects/2026".to_string(), "2026".to_string()),
        ("mem:///projects".to_string(), "projects".to_string()),
    ];
    let crumbs = model.breadcrumbs(&ancestry, "mem:///", "mem");
    assert_eq!(crumbs.iter().map(|c| c.label.clone()).collect::<Vec<_>>(), vec!["Memory", "projects", "2026"]);
    assert_eq!(
        crumbs.iter().map(|c| c.uri.clone()).collect::<Vec<_>>(),
        vec!["mem:///", "mem:///projects", "mem:///projects/2026"]
    );
}

#[test]
fn an_unregistered_scheme_labels_its_root_with_the_scheme() {
    let roots = [memory_root(), root("other", "Other Store")];
    assert_eq!(provider_label(&roots, "other"), "Other Store");
    assert_eq!(provider_label(&roots, "gone"), "gone");
    let trail = breadcrumb_trail(&[("gone:///a".to_string(), "a".to_string())], "gone:///", "gone", &roots);
    assert_eq!(
        trail,
        vec![
            Crumb { label: "gone".to_string(), uri: "gone:///".to_string() },
            Crumb { label: "a".to_string(), uri: "gone:///a".to_string() },
        ]
    );
}

#[test]
fn the_first_row_with_a_scheme_names_it() {
    let roots = [root("mem", "Memory"), root("mem", "Shadow")];
    assert_eq!(provider_label(&roots, "mem"), "Memory");
}

#[test]
fn the_listing_state_reads_as_the_inspector_shows_it() {
    assert_eq!(Listing::Loading.state_label(), "Loading");
    assert_eq!(Listing::Empty.state_label(), "Empty");
    assert_eq!(Listing::Ready(vec![file("/a.atmr")]).state_label(), "Ready");
    assert_eq!(Listing::Error("offline".to_string()).state_label(), "Error: offline");
}

#[test]
fn open_mode_resolves_only_a_selected_file() {
    let mut model = opened_on(vec![file("/alpha.atmr"), dir("/projects")]);

    assert_eq!(resolve_pick(BrowserMode::Open, &model, "", PROJECT_EXTENSION), None);

    model.select(Some("mem:///alpha.atmr".to_string()));
    assert_eq!(
        resolve_pick(BrowserMode::Open, &model, "", PROJECT_EXTENSION),
        Some(PickTarget::Open("mem:///alpha.atmr".to_string()))
    );

    // A selection that is not in the listing resolves to nothing.
    model.select(Some("mem:///ghost.atmr".to_string()));
    assert_eq!(resolve_pick(BrowserMode::Open, &model, "", PROJECT_EXTENSION), None);

    // A directory is a place to go, not a file to open.
    model.select(Some("mem:///projects".to_string()));
    assert_eq!(resolve_pick(BrowserMode::Open, &model, "", PROJECT_EXTENSION), None);
}

#[test]
fn save_mode_picks_the_directory_on_screen() {
    let model = opened_on(vec![file("/alpha.atmr")]);
    let want = Some(PickTarget::Save { dir: "mem:///".to_string(), name: "design.atmr".to_string() });
    assert_eq!(resolve_pick(BrowserMode::Save, &model, "design", PROJECT_EXTENSION), want);
    // Surrounding whitespace is not part of a file name.
    assert_eq!(resolve_pick(BrowserMode::Save, &model, "  design  ", PROJECT_EXTENSION), want);
    assert_eq!(resolve_pick(BrowserMode::Save, &model, "a/b", PROJECT_EXTENSION), None);
    assert_eq!(resolve_pick(BrowserMode::Save, &BrowserModel::new(Vec::new()), "design", PROJECT_EXTENSION), None);
}
