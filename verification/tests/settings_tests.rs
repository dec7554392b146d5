//! Main-window placement decisions and the `main_window_*` lines.

use atomartist_ui::settings::{
    apply_main_window_kv, parse_bool, rects_overlap_at_least, write_main_window, MainWindowState,
    WindowPlacement,
};

#[test]
fn default_main_window_state_is_not_geometry_valid() {
    assert!(!MainWindowState::default().has_valid_geometry());
}

#[test]
fn main_window_fits_when_fully_inside_a_monitor() {
    let win = MainWindowState {
        x: 200,
        y: 200,
        width: 1280,
        height: 720,
        maximized: false,
    };
    let monitors = vec![(0, 0, 1920u32, 1080u32)];
    assert!(win.fits_on_monitors(monitors));
}

#[test]
fn main_window_does_not_fit_when_completely_off_screen() {
    let win = MainWindowState {
        x: 2500,
        y: 400,
        width: 1280,
        height: 720,
        maximized: false,
    };
    let monitors = vec![(0, 0, 1920u32, 1080u32)];
    assert!(!win.fits_on_monitors(monitors));
}

#[test]
fn main_window_fits_when_title_bar_just_pokes_onto_a_monitor() {
    let win = MainWindowState {
        x: 1700,
        y: 100,
        width: 800,
        height: 600,
        maximized: false,
    };
    let monitors = vec![(0, 0, 1920u32, 1080u32)];
    assert!(win.fits_on_monitors(monitors));
}

#[test]
fn main_window_does_not_fit_when_only_a_sliver_is_visible() {
    let win = MainWindowState {
        x: 1870,
        y: 100,
        width: 800,
        height: 600,
        maximized: false,
    };
    let monitors = vec![(0, 0, 1920u32, 1080u32)];
    assert!(!win.fits_on_monitors(monitors));
}

#[test]
fn main_window_fits_on_secondary_monitor_when_primary_does_not() {
    let win = MainWindowState {
        x: 2400,
        y: 200,
        width: 1280,
        height: 720,
        maximized: false,
    };
    let monitors = vec![(0, 0, 1920u32, 1080u32), (1920, 0, 1920u32, 1080u32)];
    assert!(win.fits_on_monitors(monitors));
}

#[test]
fn invalid_geometry_never_fits() {
    let win = MainWindowState::default();
    let monitors = vec![(0, 0, 1920u32, 1080u32)];
    assert!(!win.fits_on_monitors(monitors));
}

#[test]
fn placement_default_when_no_saved_geometry() {
    let monitors = vec![(0, 0, 1920u32, 1080u32)];
    let win = MainWindowState::default();
    assert_eq!(
        win.placement(monitors.clone()),
        WindowPlacement::Default { maximized: false }
    );

    let win = MainWindowState {
        maximized: true,
        ..MainWindowState::default()
    };
    assert_eq!(
        win.placement(monitors),
        WindowPlacement::Default { maximized: true }
    );
}

#[test]
fn placement_restore_when_fully_on_screen() {
    let win = MainWindowState {
        x: 200,
        y: 200,
        width: 1280,
        height: 720,
        maximized: false,
    };
    let monitors = vec![(0, 0, 1920u32, 1080u32)];
    assert_eq!(win.placement(monitors), WindowPlacement::Restore { bounds: win });
}

#[test]
fn placement_preserves_maximized_when_position_needs_recenter() {
    let win = MainWindowState {
        x: -8,
        y: -8,
        width: 1280,
        height: 720,
        maximized: true,
    };
    let monitors = vec![(0, 0, 1920u32, 1080u32)];
    assert_eq!(
        win.placement(monitors),
        WindowPlacement::Recenter {
            width: 1280,
            height: 720,
            maximized: true,
        }
    );
}

#[test]
fn placement_recenter_keeps_size_when_monitor_disconnected() {
    let win = MainWindowState {
        x: 2500,
        y: 400,
        width: 1600,
        height: 900,
        maximized: false,
    };
    let monitors = vec![(0, 0, 1920u32, 1080u32)];
    assert_eq!(
        win.placement(monitors),
        WindowPlacement::Recenter {
            width: 1600,
            height: 900,
            maximized: false,
        }
    );
}

#[test]
fn overlap_needs_both_extents() {
    assert!(rects_overlap_at_least((0, 0, 200, 50), (0, 0, 1920, 1080), 120, 40));
    assert!(!rects_overlap_at_least((0, 0, 200, 30), (0, 0, 1920, 1080), 120, 40));
    assert!(!rects_overlap_at_least((1850, 0, 200, 50), (0, 0, 1920, 1080), 120, 40));
    // Exactly the minimum is enough.
    assert!(rects_overlap_at_least((1800, 0, 200, 40), (0, 0, 1920, 1080), 120, 40));
}

#[test]
fn a_short_window_is_judged_by_its_whole_height() {
    // A 30 px tall window can never show a 40 px strip.
    let win = MainWindowState {
        x: 0,
        y: 0,
        width: 800,
        height: 30,
        maximized: false,
    };
    assert!(!win.fits_on_monitors(vec![(0, 0, 1920u32, 1080u32)]));
}

#[test]
fn boolean_tokens() {
    for t in ["true", "1", "yes", "on"] {
        assert_eq!(parse_bool(t), Some(true));
    }
    for f in ["false", "0", "no", "off"] {
        assert_eq!(parse_bool(f), Some(false));
    }
    assert_eq!(parse_bool("maybe"), None);
    assert_eq!(parse_bool("True"), None);
    assert_eq!(parse_bool(""), None);
}

#[test]
fn main_window_lines_round_trip() {
    let state = MainWindowState {
        x: -8,
        y: 2_147_483_647,
        width: 4_294_967_295,
        height: 720,
        maximized: true,
    };
    let mut out = String::new();
    write_main_window(&mut out, &state);
    assert_eq!(
        out,
        "main_window_x=-8\nmain_window_y=2147483647\nmain_window_w=4294967295\n\
         main_window_h=720\nmain_window_maximized=true\n"
    );
    let mut restored = MainWindowState::default();
    for line in out.lines() {
        let (key, value) = line.split_once('=').expect("key=value");
        assert!(apply_main_window_kv(&mut restored, key, value));
    }
    assert_eq!(restored, state);
}

#[test]
fn main_window_values_that_do_not_parse_are_ignored() {
    let mut state = MainWindowState {
        x: 5,
        y: 6,
        width: 7,
        height: 8,
        maximized: false,
    };
    let before = state;
    assert!(apply_main_window_kv(&mut state, "main_window_x", "12.5"));
    assert!(apply_main_window_kv(&mut state, "main_window_w", "-3"));
    assert!(apply_main_window_kv(&mut state, "main_window_h", "4294967296"));
    assert!(apply_main_window_kv(&mut state, "main_window_y", "+"));
    assert!(apply_main_window_kv(&mut state, "main_window_maximized", "maybe"));
    assert!(apply_main_window_kv(&mut state, "main_window_depth", "3"));
    assert_eq!(state, before);
    assert!(!apply_main_window_kv(&mut state, "inspector_x", "3"));
    assert!(apply_main_window_kv(&mut state, "main_window_y", "+42"));
    assert!(apply_main_window_kv(&mut state, "main_window_x", "-2147483648"));
    assert_eq!(state.y, 42);
    assert_eq!(state.x, i32::MIN);
}

#[test]
fn the_first_monitor_that_fits_decides_without_looking_further() {
    let win = MainWindowState { x: 100, y: 100, width: 800, height: 600, maximized: false };
    // The second monitor's right edge does not fit in `i32`; it is never examined.
    let monitors = vec![(0, 0, 1920, 1080), (i32::MAX - 10, 0, 1920, 1080)];
    assert!(win.fits_on_monitors(monitors.clone()));
    assert_eq!(win.placement(monitors), WindowPlacement::Restore { bounds: win });
}
