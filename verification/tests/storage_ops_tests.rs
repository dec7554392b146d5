use atomartist_ui::storage_ops::{
    drain_step, AppState, DrainAction, DrainStage, FrameRequest, StatusClick, Notice, NoticeLevel, OpProgress,
    PendingOpStatus, FINAL_PUMP_ROUNDS, NOTICE_CAP,
};

fn state() -> AppState {
    AppState::new()
}

fn op(label: &str, quiet: bool, percent: Option<u8>) -> PendingOpStatus {
    PendingOpStatus {
        label: label.to_string(),
        quiet,
        progress: OpProgress::Pending { percent },
    }
}

#[test]
fn a_message_identical_to_the_last_one_is_not_queued_twice() {
    let mut state = state();
    state.notify(NoticeLevel::Error, "Save failed: disk on fire".to_string());
    state.notify(NoticeLevel::Error, "Save failed: disk on fire".to_string());

    assert_eq!(
        state.drain_notices().len(),
        1,
        "consecutive duplicates collapse to one"
    );
}

#[test]
fn a_repeat_after_another_message_is_still_news() {
    let mut state = state();
    state.notify(NoticeLevel::Error, "Export failed".to_string());
    state.notify(NoticeLevel::Info, "Exported bracket.stl".to_string());
    state.notify(NoticeLevel::Error, "Export failed".to_string());
    state.notify(NoticeLevel::Info, "Export failed".to_string());

    let drained = state.drain_notices();
    assert_eq!(drained.len(), 4);
    assert_eq!(drained[3].level, NoticeLevel::Info);
}

#[test]
fn the_notice_queue_is_capped() {
    let mut state = state();
    for i in 0..(NOTICE_CAP + 50) {
        state.notify(NoticeLevel::Info, format!("notice {i}"));
    }
    let drained = state.drain_notices();
    assert_eq!(drained.len(), NOTICE_CAP, "queue is capped");
    assert_eq!(
        drained.last().map(|n| n.text.clone()),
        Some(format!("notice {}", NOTICE_CAP + 49)),
        "the newest message is kept"
    );
    assert_eq!(
        drained.first().map(|n| n.text.as_str()),
        Some("notice 50"),
        "the oldest messages are the ones dropped"
    );
}

#[test]
fn pumping_notices_parks_the_newest_for_display() {
    let mut state = state();
    assert_eq!(state.last_notice(), None, "nothing to show on a fresh state");

    state.notify(NoticeLevel::Error, "could not open: not found".to_string());
    assert_eq!(state.pump_notices(), 1);
    assert_eq!(
        state.last_notice(),
        Some(Notice {
            level: NoticeLevel::Error,
            text: "could not open: not found".to_string(),
        })
    );

    assert_eq!(state.pump_notices(), 0);
    assert!(matches!(
        state.last_notice(),
        Some(Notice {
            level: NoticeLevel::Error,
            ..
        })
    ));

    state.notify(NoticeLevel::Error, "could not save: read only".to_string());
    state.pump_notices();
    assert_eq!(
        state.last_notice().map(|n| (n.level, n.text)),
        Some((NoticeLevel::Error, "could not save: read only".to_string()))
    );

    state.dismiss_notice();
    assert_eq!(state.last_notice(), None, "clicking the text clears it");

    state.notify(NoticeLevel::Info, "Saved bracket.atmr".to_string());
    state.pump_notices();
    assert_eq!(
        state.last_notice().map(|n| (n.level, n.text)),
        Some((NoticeLevel::Info, "Saved bracket.atmr".to_string()))
    );

    state.notify(NoticeLevel::Info, "Saved other.atmr".to_string());
    state.pump_notices();
    assert_eq!(
        state.last_notice().map(|n| n.text),
        Some("Saved other.atmr".to_string())
    );
}

#[test]
fn an_error_in_a_batch_outranks_a_newer_info() {
    let mut state = state();
    state.notify(NoticeLevel::Error, "could not save: disk full".to_string());
    state.notify(NoticeLevel::Info, "Saved b.atmr".to_string());
    assert_eq!(state.pump_notices(), 2, "both messages drained");
    assert_eq!(
        state.last_notice().map(|n| (n.level, n.text)),
        Some((NoticeLevel::Error, "could not save: disk full".to_string())),
        "the error must win the display slot over a newer info"
    );
}

#[test]
fn the_newest_error_wins_among_equal_severities() {
    let mut state = state();
    state.notify(NoticeLevel::Error, "first failure".to_string());
    state.notify(NoticeLevel::Info, "progress".to_string());
    state.notify(NoticeLevel::Error, "second failure".to_string());
    state.pump_notices();
    assert_eq!(
        state.last_notice().map(|n| n.text),
        Some("second failure".to_string())
    );
}

#[test]
fn an_info_does_not_replace_an_undismissed_error() {
    let mut state = state();
    state.notify(NoticeLevel::Error, "could not save: disk full".to_string());
    state.pump_notices();

    state.notify(NoticeLevel::Info, "Saved b.atmr".to_string());
    assert_eq!(state.pump_notices(), 1, "the info was drained");
    assert_eq!(
        state.last_notice().map(|n| (n.level, n.text)),
        Some((NoticeLevel::Error, "could not save: disk full".to_string())),
        "an undismissed error outlives a later info"
    );

    state.dismiss_notice();
    state.notify(NoticeLevel::Info, "Saved c.atmr".to_string());
    state.pump_notices();
    assert_eq!(
        state.last_notice().map(|n| (n.level, n.text)),
        Some((NoticeLevel::Info, "Saved c.atmr".to_string())),
        "dismissal frees the slot for a quieter notice"
    );
}

#[test]
fn a_warning_outranks_an_info_but_not_an_error() {
    let mut state = state();
    state.notify(NoticeLevel::Info, "a".to_string());
    state.notify(NoticeLevel::Warning, "b".to_string());
    state.notify(NoticeLevel::Info, "c".to_string());
    state.pump_notices();
    assert_eq!(
        state.last_notice().map(|n| (n.level, n.text)),
        Some((NoticeLevel::Warning, "b".to_string()))
    );
    state.notify(NoticeLevel::Error, "d".to_string());
    state.notify(NoticeLevel::Warning, "e".to_string());
    state.pump_notices();
    assert_eq!(state.last_notice().map(|n| n.text), Some("d".to_string()));
}

#[test]
fn the_storage_activity_text_reports_label_progress_and_backlog() {
    let mut state = state();
    assert_eq!(state.storage_activity_text(), None, "idle shows nothing");

    state.queue_op(op("Opening bracket.atmr", false, None));
    assert_eq!(
        state.storage_activity_text().as_deref(),
        Some("Opening bracket.atmr…"),
        "a provider that reports no progress shows none"
    );

    state.queue_op(op("Saving other.atmr", false, None));
    assert_eq!(
        state.storage_activity_text().as_deref(),
        Some("Opening bracket.atmr… (+1 more)"),
        "the first op leads, the rest are counted"
    );
}

#[test]
fn the_storage_activity_text_renders_progress_as_a_percentage() {
    let mut state = state();
    state.queue_op(op("Opening bracket.atmr", false, Some(42)));
    assert_eq!(
        state.storage_activity_text().as_deref(),
        Some("Opening bracket.atmr… 42%")
    );
}

#[test]
fn a_settled_op_shows_no_percent_until_it_is_applied() {
    let mut state = state();
    state.queue_op(op("Saving a.atmr", false, Some(10)));
    for _ in 0..11 {
        state.queue_op(op("Saving b.atmr", false, None));
    }
    state.set_op_progress(0, OpProgress::Settled);
    assert_eq!(
        state.storage_activity_text().as_deref(),
        Some("Saving a.atmr… (+11 more)")
    );
}

#[test]
fn a_quiet_op_is_invisible_to_the_status_bar_and_the_busy_check() {
    let mut state = state();
    state.queue_op(op("Preview bracket.atmr", true, None));
    assert_eq!(state.pending_op_count_all(), 1, "it is really queued");
    assert_eq!(state.pending_op_count(), 0, "but not as user-visible work");
    assert_eq!(state.storage_activity_text(), None);

    state.queue_op(op("Opening bracket.atmr", false, None));
    assert_eq!(state.pending_op_count(), 1);
    assert_eq!(state.pending_op_count_all(), 2);
    assert_eq!(
        state.storage_activity_text().as_deref(),
        Some("Opening bracket.atmr…"),
        "a quiet op must not be counted in the backlog"
    );

    state.set_op_progress(0, OpProgress::Settled);
    let settled = state.take_settled();
    assert_eq!(settled.len(), 1);
    assert_eq!(settled[0].label, "Preview bracket.atmr");
    assert_eq!(state.pending_op_count_all(), 1);
}

#[test]
fn settling_keeps_queue_order_on_both_sides() {
    let mut state = state();
    for label in ["a", "b", "c", "d", "e"] {
        state.queue_op(op(label, false, None));
    }
    state.set_op_progress(1, OpProgress::Settled);
    state.set_op_progress(3, OpProgress::Settled);
    let settled: Vec<String> = state.take_settled().into_iter().map(|o| o.label).collect();
    assert_eq!(settled, vec!["b".to_string(), "d".to_string()]);
    assert_eq!(state.pending_op_count_all(), 3);
    assert_eq!(state.storage_activity_text().as_deref(), Some("a… (+2 more)"));
    assert!(state.take_settled().is_empty());
}

#[test]
fn a_pending_op_with_no_progress_does_not_animate_the_status_bar() {
    let mut state = state();
    state.queue_op(op("Choose a file to open", false, None));
    assert_eq!(state.pending_op_count(), 1, "it really is in flight");
    assert!(
        !state.has_progress_reporting_op(),
        "nothing about it changes between frames"
    );
}

#[test]
fn a_progress_reporting_op_still_keeps_the_loop_alive() {
    let mut state = state();
    state.queue_op(op("Opening bracket.atmr", false, Some(42)));
    assert!(state.has_progress_reporting_op());
    assert_eq!(
        state.frame_request_after_pump(false),
        FrameRequest::KeepAlive,
        "an advancing percentage must bring the loop back next frame"
    );
}

#[test]
fn a_quiet_progress_reporting_op_does_not_keep_the_loop_alive() {
    let mut state = state();
    state.queue_op(op("Preview a.atmr", true, Some(42)));
    assert!(
        !state.has_progress_reporting_op(),
        "quiet work is not in the readout, so it animates nothing"
    );
    assert_eq!(state.frame_request_after_pump(false), FrameRequest::Nothing);
}

#[test]
fn a_pending_op_with_no_progress_lets_the_loop_sleep() {
    let mut state = state();
    state.queue_op(op("Choose a file to open", false, None));
    assert_eq!(
        state.frame_request_after_pump(false),
        FrameRequest::Nothing,
        "a pending op with nothing to animate must not keep requesting frames"
    );
}

#[test]
fn an_empty_queue_arms_nothing() {
    let state = state();
    assert_eq!(state.frame_request_after_pump(false), FrameRequest::Nothing);
}

#[test]
fn a_frame_that_applied_a_continuation_draws() {
    let mut state = state();
    assert_eq!(state.frame_request_after_pump(true), FrameRequest::Draw);
    state.queue_op(op("Choose a file to open", false, None));
    assert_eq!(state.frame_request_after_pump(true), FrameRequest::Draw, "even with work still queued");
}

#[test]
fn pump_storage_drains_notices_even_with_an_empty_queue() {
    let mut state = state();
    state.notify(NoticeLevel::Info, "Opened a.atmr".to_string());
    assert_eq!(state.pending_op_count(), 0);
    let settled = state.pump_storage();
    assert!(settled.is_empty() && state.pending_op_count_all() == 0, "nothing was or is in flight");
    assert_eq!(state.last_notice().map(|n| n.text), Some("Opened a.atmr".to_string()));
}

#[test]
fn the_pump_hands_back_settled_ops_and_keeps_the_rest() {
    let mut state = state();
    state.queue_op(op("Saving a.atmr", false, None));
    state.queue_op(op("Preview b.atmr", true, Some(10)));
    state.set_op_progress(0, OpProgress::Settled);
    let settled = state.pump_storage();
    assert_eq!(settled.iter().map(|o| o.label.as_str()).collect::<Vec<_>>(), vec!["Saving a.atmr"]);
    assert_eq!(state.pending_op_count_all(), 1);
    assert_eq!(state.pending_op_count(), 0, "only quiet work is left");
}

#[test]
fn a_click_on_the_status_bar_cancels_or_dismisses() {
    let mut state = state();
    state.notify(NoticeLevel::Error, "Save failed: disk full".to_string());
    state.pump_notices();
    assert_eq!(state.status_bar_click(true, false), StatusClick::Ignored, "nothing to cancel: a stale span falls through");
    state.queue_op(op("Saving a.atmr", false, None));
    assert_eq!(state.status_bar_click(true, false), StatusClick::CancelOps);
    assert!(state.last_notice().is_some(), "cancelling leaves the notice");
    assert_eq!(state.status_bar_click(false, true), StatusClick::DismissNotice);
    assert!(state.last_notice().is_none());
    assert_eq!(state.status_bar_click(false, false), StatusClick::Ignored);
}

#[test]
fn a_settled_op_still_earns_a_frame_but_shows_no_percent() {
    let mut state = state();
    state.queue_op(op("Saving a.atmr", false, None));
    state.set_op_progress(0, OpProgress::Settled);
    assert_eq!(state.storage_activity_text().as_deref(), Some("Saving a.atmr…"));
    assert!(state.has_progress_reporting_op());
}

#[test]
fn the_status_readouts_list_loud_ops_or_all_ops_in_queue_order() {
    let mut state = state();
    state.queue_op(op("Opening a.atmr", false, None));
    state.queue_op(op("Preview a.atmr", true, None));
    state.queue_op(op("Saving b.atmr", false, Some(7)));
    let loud: Vec<String> = state.pending_op_status().into_iter().map(|o| o.label).collect();
    assert_eq!(loud, vec!["Opening a.atmr".to_string(), "Saving b.atmr".to_string()]);
    let all: Vec<String> = state.pending_op_status_all().into_iter().map(|o| o.label).collect();
    assert_eq!(all, vec!["Opening a.atmr".to_string(), "Preview a.atmr".to_string(), "Saving b.atmr".to_string()]);
}

#[test]
fn the_exit_drain_waits_for_loud_work_and_cancels_quiet_work() {
    assert_eq!(drain_step(DrainStage::Waiting, false, 0, false, 0), DrainAction::Finish(true));
    assert_eq!(drain_step(DrainStage::Waiting, true, 2, false, 0), DrainAction::SleepThenPump);
    assert_eq!(
        drain_step(DrainStage::Waiting, true, 0, false, 0),
        DrainAction::CancelAndPump(DrainStage::QuietRounds)
    );
    assert_eq!(
        drain_step(DrainStage::Waiting, true, 1, true, 0),
        DrainAction::CancelAndPump(DrainStage::FinalRounds)
    );
}

#[test]
fn the_exit_drain_stops_cancelling_after_the_final_rounds() {
    assert_eq!(FINAL_PUMP_ROUNDS, 4);
    assert_eq!(
        drain_step(DrainStage::FinalRounds, true, 1, true, 3),
        DrainAction::CancelAndPump(DrainStage::FinalRounds)
    );
    assert_eq!(drain_step(DrainStage::FinalRounds, true, 1, true, 4), DrainAction::Finish(false));
    assert_eq!(drain_step(DrainStage::FinalRounds, false, 0, true, 1), DrainAction::Finish(false));
    assert_eq!(drain_step(DrainStage::QuietRounds, true, 0, false, 4), DrainAction::Finish(true));
    assert_eq!(drain_step(DrainStage::QuietRounds, false, 0, false, 1), DrainAction::Finish(true));
}
