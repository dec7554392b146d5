use atomartist_ui::menu_actions::{
    after_save, SaveResult,
    confirm_discard_unsaved_then, export_default_name, failure_dialog, pick_outcome, recent_entry_opens,
    recent_missing_notice, route_action, save_as_suggestion, save_current, save_current_then, without_recent,
    ExportKind, FailedStep, MenuAction, PickError, PickOutcome, SaveTarget, ThemeChoice, UnsavedChoice,
    UnsavedOutcome,
};
use atomartist_ui::storage_ops::{AppState, NoticeLevel, OpProgress, PendingOpStatus};

#[test]
fn action_ids_route_to_their_requests() {
    assert_eq!(route_action("add.Box"), MenuAction::AddNode("Box".to_string()));
    assert_eq!(route_action("view.accent.blue"), MenuAction::Accent("blue".to_string()));
    assert_eq!(route_action("view.theme.dark"), MenuAction::Theme(ThemeChoice::Dark));
    assert_eq!(route_action("view.theme.system"), MenuAction::Theme(ThemeChoice::System));
    assert_eq!(route_action("file.recent.2"), MenuAction::Recent(Some(2)));
    assert_eq!(route_action("file.recent.x"), MenuAction::Recent(None));
    assert_eq!(route_action("file.export.stl"), MenuAction::Export(ExportKind::Stl));
    assert_eq!(route_action("file.export.3mf"), MenuAction::Export(ExportKind::ThreeMf));
    assert_eq!(route_action("file.export.atmr"), MenuAction::Export(ExportKind::ProjectCopy));
    assert_eq!(route_action("file.export.png"), MenuAction::Export(ExportKind::Unsupported));
    assert_eq!(route_action("file.save_as"), MenuAction::SaveAs);
    assert_eq!(route_action("file.save"), MenuAction::Save);
    assert_eq!(route_action("edit.select_all"), MenuAction::SelectAll);
    assert_eq!(route_action("view.debug.performance"), MenuAction::TogglePerformance);
    assert_eq!(route_action("file.saveas"), MenuAction::Ignored);
    assert_eq!(route_action(""), MenuAction::Ignored);
}

#[test]
fn only_storage_actions_wait_for_idle_storage() {
    for id in ["file.new", "file.open", "file.save", "file.save_as", "file.import", "file.export.stl", "file.recent.0"] {
        assert!(route_action(id).refused_while_busy(1), "{id} starts storage work");
    }
    for id in ["edit.undo", "add.Box", "help.about", "view.theme.light"] {
        assert!(!route_action(id).refused_while_busy(1), "{id} touches no storage");
    }
}

#[test]
fn a_recent_index_that_names_no_entry_is_not_a_storage_action() {
    assert!(route_action("file.recent.2").refused_while_busy(3));
    assert!(!route_action("file.recent.3").refused_while_busy(3));
    assert!(!route_action("file.recent.0").refused_while_busy(0));
    assert!(!route_action("file.recent.x").refused_while_busy(5));
}

#[test]
fn a_destructive_file_action_is_refused_while_storage_is_busy() {
    let mut state = AppState::new();
    assert!(!state.storage_busy(), "idle storage refuses nothing");
    state.queue_op(PendingOpStatus {
        label: "Saving busy.atmr".to_string(),
        quiet: false,
        progress: OpProgress::Pending { percent: None },
    });
    assert!(route_action("file.new").refused_while_busy(0));
    assert!(state.storage_busy());
    state.pump_notices();
    let notice = state.last_notice().expect("the user must be told why");
    assert_eq!(notice.level, NoticeLevel::Info);
    assert!(notice.text.contains("busy"), "notice should explain the refusal: {}", notice.text);
}

#[test]
fn quiet_work_does_not_make_storage_busy() {
    let mut state = AppState::new();
    state.queue_op(PendingOpStatus {
        label: "Preview a.atmr".to_string(),
        quiet: true,
        progress: OpProgress::Pending { percent: None },
    });
    assert!(!state.storage_busy());
    assert_eq!(state.pump_notices(), 0);
}

#[test]
fn the_unsaved_prompt_decides_what_happens_next() {
    let mut asked = false;
    assert_eq!(
        confirm_discard_unsaved_then(false, || {
            asked = true;
            UnsavedChoice::Cancel
        }),
        UnsavedOutcome::Proceed
    );
    assert!(!asked, "nothing unsaved: no prompt");
    assert_eq!(confirm_discard_unsaved_then(true, || UnsavedChoice::Save), UnsavedOutcome::SaveThenProceed);
    assert_eq!(confirm_discard_unsaved_then(true, || UnsavedChoice::Discard), UnsavedOutcome::Proceed);
    assert_eq!(confirm_discard_unsaved_then(true, || UnsavedChoice::Cancel), UnsavedOutcome::Stay);
}

#[test]
fn saving_goes_to_the_current_file_or_asks_where() {
    assert_eq!(
        save_current_then(Some("mem:///a.atmr")),
        SaveTarget::Existing("mem:///a.atmr".to_string())
    );
    assert_eq!(save_current(None), SaveTarget::Pick("untitled.atmr".to_string()));
    assert_eq!(save_as_suggestion(Some("bracket.atmr")), "bracket.atmr");
    assert_eq!(save_as_suggestion(None), "untitled.atmr");
}

#[test]
fn export_names_follow_the_project() {
    assert_eq!(export_default_name(Some("bracket"), "stl"), "bracket.stl");
    assert_eq!(export_default_name(None, "3mf"), "export.3mf");
}

#[test]
fn a_broken_picker_notices_while_a_cancelled_one_stays_silent() {
    match pick_outcome(Err(PickError::Failed("no picker".to_string()))) {
        PickOutcome::Report(notice) => {
            assert!(notice.contains("picker"), "the notice should name what broke: {notice}");
            assert_eq!(notice, "The file picker failed: no picker");
        }
        other => panic!("a broken picker must be reported, got {other:?}"),
    }
    assert_eq!(pick_outcome(Err(PickError::Cancelled)), PickOutcome::Nothing);
    assert_eq!(pick_outcome(Ok(None)), PickOutcome::Nothing);
    assert_eq!(
        pick_outcome(Ok(Some("mem:///a.atmr".to_string()))),
        PickOutcome::Chosen("mem:///a.atmr".to_string())
    );
}

#[test]
fn failed_saves_and_opens_say_what_failed() {
    assert_eq!(failure_dialog(FailedStep::Save, "disk full"), "Save failed: disk full");
    assert_eq!(failure_dialog(FailedStep::Open, "not a project"), "Open failed: not a project");
}

#[test]
fn a_missing_recent_project_is_reported_and_pruned() {
    assert!(recent_entry_opens(Ok(true)));
    assert!(!recent_entry_opens(Ok(false)), "nothing there");
    assert!(!recent_entry_opens(Err(())), "an unknown scheme or a failed stat");
    assert_eq!(
        recent_missing_notice("mem:///gone.atmr"),
        "mem:///gone.atmr no longer exists \u{2014} removing it from the recent list."
    );
    let list = vec![
        "mem:///a.atmr".to_string(),
        "mem:///gone.atmr".to_string(),
        "mem:///b.atmr".to_string(),
        "mem:///gone.atmr".to_string(),
    ];
    assert_eq!(without_recent(&list, "mem:///gone.atmr"), vec!["mem:///a.atmr", "mem:///b.atmr"]);
    assert_eq!(without_recent(&list, "mem:///other.atmr"), list);
}

#[test]
fn the_follow_up_runs_only_once_the_save_is_written() {
    let mut state = AppState::new();
    let (ran, dialog) = after_save(&mut state, SaveResult::Written, || "proceeded");
    assert_eq!((ran, dialog), (Some("proceeded"), None));
    assert!(state.drain_notices().is_empty());

    let (ran, dialog) = after_save(&mut state, SaveResult::PickerDismissed, || "proceeded");
    assert_eq!((ran, dialog), (None, None), "a dismissed picker is silent");
    assert!(state.drain_notices().is_empty());

    let (ran, dialog) = after_save(&mut state, SaveResult::PickerFailed("no portal".to_string()), || "proceeded");
    assert_eq!((ran, dialog), (None, None));
    let notices = state.drain_notices();
    assert_eq!(notices.len(), 1);
    assert_eq!(notices[0].level, NoticeLevel::Error);
    assert_eq!(notices[0].text, "The file picker failed: no portal");

    let (ran, dialog) = after_save(&mut state, SaveResult::WriteFailed("disk full".to_string()), || "proceeded");
    assert_eq!(ran, None);
    assert_eq!(dialog.as_deref(), Some("Save failed: disk full"));
    let notices = state.drain_notices();
    assert_eq!(notices[0].text, "disk full");
}
