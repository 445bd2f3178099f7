use tobyscope_x11::app::{
    AppTick, EventLoop, LoopStage, Outcome, OverviewApp, OverviewEvent, RunError, ShowError,
    ShowEvent, ShowStage, Showing, Turn,
};
use tobyscope_x11::capture::{CaptureScope, CaptureSweep, SweepStatus};
use tobyscope_x11::cli::{usage, Args, Command};
use tobyscope_x11::input::{keycode_count, KeyAction, KeyMap};
use tobyscope_x11::layout::{compute, Layout};
use tobyscope_x11::windows::{WindowGeometry, WindowInfo};

const KEYS: [u32; 14] = [
    0xff1b, 0xff0d, 0xff51, 0xff52, 0xff53, 0xff54, 0x68, 0x6a, 0x6b, 0x6c, 0xffeb, 0xffec, 0x71,
    0xff54,
];

fn keymap() -> KeyMap {
    let mut keysyms = Vec::new();
    for key in KEYS {
        keysyms.extend([key, 0]);
    }
    KeyMap { min_keycode: 8, keysyms_per_keycode: 2, keysyms }
}

fn key(index: u8) -> OverviewEvent {
    OverviewEvent::KeyPress { keycode: 8 + index }
}

fn windows(count: u32) -> Vec<WindowInfo> {
    (0..count)
        .map(|id| WindowInfo {
            id,
            name: "w".to_string(),
            instance: None,
            class: None,
            workspace: "2".to_string(),
            workspace_num: None,
            i3_con_id: None,
            tree_order: 0,
            urgent: false,
            focused: false,
            geometry: WindowGeometry { x: 0, y: 0, width: 8, height: 6, depth: 24, visual: 33 },
        })
        .collect()
}

fn app(count: u32) -> (OverviewApp, Layout) {
    let list = windows(count);
    let layout = compute(1920, 1080, &list);
    (OverviewApp::new(list, keymap(), 500, false), layout)
}

fn sweep(home: Option<&str>) -> CaptureSweep {
    let list = windows(2);
    CaptureSweep::new(
        &list,
        &vec![true, true],
        home.map(str::to_string),
        CaptureScope::AllWorkspaces,
        false,
    )
}

#[test]
fn keys_do_what_the_controls_say() {
    let map = keymap();
    let actions: Vec<Option<KeyAction>> =
        (0..14).map(|index| map.action_for_keycode(8 + index)).collect();
    assert_eq!(
        actions,
        vec![
            Some(KeyAction::Close),
            Some(KeyAction::Confirm),
            Some(KeyAction::Left),
            Some(KeyAction::Up),
            Some(KeyAction::Right),
            Some(KeyAction::Down),
            Some(KeyAction::Left),
            Some(KeyAction::Down),
            Some(KeyAction::Up),
            Some(KeyAction::Right),
            None,
            None,
            None,
            Some(KeyAction::Down),
        ]
    );
    assert_eq!(map.action_for_keycode(7), None);
    assert_eq!(map.action_for_keycode(22), None);
    assert!(map.is_super_keycode(18) && map.is_super_keycode(19));
    assert!(!map.is_super_keycode(8) && !map.is_super_keycode(3));
}

#[test]
fn escape_comes_before_the_other_symbols_of_a_key() {
    let map = KeyMap {
        min_keycode: 0,
        keysyms_per_keycode: 3,
        keysyms: vec![0x68, 0xff0d, 0xff1b, 0x6c, 0x68, 1],
    };
    assert_eq!(map.action_for_keycode(0), Some(KeyAction::Close));
    assert_eq!(map.action_for_keycode(1), Some(KeyAction::Left));
    assert_eq!(map.keysyms_for_keycode(1), Some(&[0x6c, 0x68, 1][..]));
    assert_eq!(map.keysyms_for_keycode(2), None);
    let huge = KeyMap { min_keycode: 0, keysyms_per_keycode: usize::MAX, keysyms: vec![] };
    assert_eq!(huge.action_for_keycode(2), None);
    assert_eq!(huge.action_for_keycode(1), None);
}

#[test]
fn key_counts_saturate() {
    assert_eq!(keycode_count(8, 255), 248);
    assert_eq!(keycode_count(0, 255), 255);
    assert_eq!(keycode_count(9, 8), 1);
    assert_eq!(keycode_count(8, 8), 1);
}

#[test]
fn moves_stay_on_the_grid() {
    let (mut app, layout) = app(5);
    assert_eq!(layout.columns, 3);
    let mut press = |index: u8, selected: usize| {
        assert_eq!(app.handle_event(key(index), &layout), Outcome::Redraw);
        assert_eq!(app.selected, selected);
    };
    press(2, 0);
    press(4, 1);
    press(4, 2);
    press(4, 2);
    press(5, 4);
    press(5, 4);
    press(4, 4);
    press(3, 1);
    press(3, 1);
    press(2, 0);
    press(5, 3);
    press(3, 0);
}

#[test]
fn escape_closes_and_enter_picks() {
    let (mut app, layout) = app(5);
    app.handle_event(key(4), &layout);
    assert_eq!(app.handle_event(key(0), &layout), Outcome::Close);
    assert_eq!(app.handle_event(key(1), &layout), Outcome::Focus { index: 1 });
    assert_eq!(app.handle_event(key(12), &layout), Outcome::Nothing);
    let release = OverviewEvent::KeyRelease { keycode: 18 };
    assert_eq!(app.handle_event(release, &layout), Outcome::Close);
    let release = OverviewEvent::KeyRelease { keycode: 8 };
    assert_eq!(app.handle_event(release, &layout), Outcome::Nothing);
    assert_eq!(app.selected, 1);
}

#[test]
fn the_pointer_selects_and_picks() {
    let (mut app, layout) = app(5);
    let cell = layout.items[3].cell;
    let hover = OverviewEvent::Motion { x: cell.x, y: cell.y };
    assert_eq!(app.handle_event(hover, &layout), Outcome::Redraw);
    assert_eq!(app.selected, 3);
    assert_eq!(app.handle_event(hover, &layout), Outcome::Nothing);
    let outside = OverviewEvent::Motion { x: 0, y: 0 };
    assert_eq!(app.handle_event(outside, &layout), Outcome::Nothing);
    let cell = layout.items[2].cell;
    let right = OverviewEvent::ButtonPress { button: 3, x: cell.x, y: cell.y };
    assert_eq!(app.handle_event(right, &layout), Outcome::Nothing);
    assert_eq!(app.selected, 3);
    let left = OverviewEvent::ButtonPress { button: 1, x: cell.x, y: cell.y };
    assert_eq!(app.handle_event(left, &layout), Outcome::Focus { index: 2 });
    assert_eq!(app.selected, 2);
    let miss = OverviewEvent::ButtonPress { button: 1, x: 0, y: 0 };
    assert_eq!(app.handle_event(miss, &layout), Outcome::Nothing);
}

#[test]
fn the_overlay_follows_its_own_size() {
    let (mut app, layout) = app(2);
    assert_eq!(app.window_count(), 2);
    assert_eq!(app.handle_event(OverviewEvent::Expose, &layout), Outcome::Redraw);
    assert_eq!(app.handle_event(OverviewEvent::Other, &layout), Outcome::Nothing);
    let own = OverviewEvent::Configure { window: 500, width: 7, height: 8 };
    assert_eq!(app.handle_event(own, &layout), Outcome::Resize { width: 7, height: 8 });
    let other = OverviewEvent::Configure { window: 501, width: 7, height: 8 };
    assert_eq!(app.handle_event(other, &layout), Outcome::Nothing);
}

#[test]
fn showing_and_hiding_keep_track() {
    let (mut app, layout) = app(2);
    assert!(app.show_prepared(false));
    app.framed(layout);
    assert!(!app.show_prepared(false));
    assert!(app.show_prepared(true));
    assert!(app.start_background_capture());
    app.shown();
    assert!(!app.start_background_capture());
    assert_eq!(app.tick_nonblocking(true), Turn::HandleEvent);
    assert_eq!(app.tick_nonblocking(false), Turn::Idle);
    assert_eq!(app.tick_background(), Turn::Idle);
    app.start_capture(sweep(Some("1")));
    assert_eq!(app.tick_nonblocking(false), Turn::StepSweep);
    assert_eq!(app.tick_background(), Turn::StepSweep);
    assert!(app.swept(SweepStatus::Updated, false));
    assert_eq!(app.hide_without_focus(), Some("1".to_string()));
    assert!(!app.visible && app.sweep.is_none());
    assert_eq!(app.hide_without_focus(), None);
}

#[test]
fn an_empty_sweep_is_not_begun() {
    let (mut app, _) = app(2);
    let none = CaptureSweep::new(&[], &vec![], None, CaptureScope::AllWorkspaces, false);
    app.start_capture(none);
    assert!(app.sweep.is_none());
}

#[test]
fn the_end_of_a_sweep_is_drawn_where_it_is_seen() {
    let (mut app, _) = app(2);
    app.start_capture(sweep(None));
    assert!(!app.swept(SweepStatus::Finished, false));
    assert!(app.sweep.is_none());
    app.start_capture(sweep(None));
    assert!(app.swept(SweepStatus::Finished, true));
    app.shown();
    assert!(app.swept(SweepStatus::Finished, false));
}

#[test]
fn endings_tell_what_is_left_to_do() {
    let (mut app, _) = app(2);
    app.shown();
    app.start_capture(sweep(Some("1")));
    let end = app.finish_interaction(None);
    assert_eq!((end.tick, end.focus, end.restore), (AppTick::Closed, None, Some("1".to_string())));
    app.shown();
    app.start_capture(sweep(Some("1")));
    let end = app.finish_interaction(Some(1));
    assert_eq!((end.tick, end.focus, end.restore), (AppTick::Focused, Some(1), None));
    assert!(!app.visible && app.sweep.is_none());
}

#[test]
fn the_loop_waits_only_when_nothing_is_left() {
    let mut state = EventLoop::new(sweep(Some("1")));
    assert_eq!(state.stage, LoopStage::Preparing);
    state.shown();
    assert_eq!(state.stage, LoopStage::Preparing);
    state.framed();
    assert_eq!(state.stage, LoopStage::Showing);
    state.framed();
    assert_eq!(state.stage, LoopStage::Showing);
    state.shown();
    assert_eq!(state.stage, LoopStage::Drawing);
    state.framed();
    assert_eq!(state.stage, LoopStage::Polling);
    state.handled(Outcome::Redraw);
    assert_eq!(state.stage, LoopStage::Polling);
    state.no_event();
    assert_eq!(state.stage, LoopStage::Stepping);
    state.swept(SweepStatus::Updated);
    assert_eq!(state.stage, LoopStage::Drawing);
    state.framed();
    assert_eq!(state.stage, LoopStage::Polling);
    state.no_event();
    state.swept(SweepStatus::Finished);
    assert!(state.sweep.is_none());
    assert_eq!(state.stage, LoopStage::Drawing);
    state.framed();
    state.no_event();
    assert_eq!(state.stage, LoopStage::Waiting);
    state.handled(Outcome::Close);
    assert_eq!(state.stage, LoopStage::Done { picked: None });
    assert_eq!(state.restore, None);
}

#[test]
fn closing_the_loop_goes_back_and_picking_does_not() {
    let polling = || {
        let mut state = EventLoop::new(sweep(Some("1")));
        state.handled(Outcome::Close);
        assert_eq!(state.stage, LoopStage::Preparing);
        state.swept(SweepStatus::Finished);
        assert!(state.sweep.is_some());
        state.framed();
        state.shown();
        state.framed();
        state
    };
    let mut state = polling();
    state.handled(Outcome::Close);
    assert_eq!(state.restore, Some("1".to_string()));
    assert!(state.sweep.is_none());
    state.handled(Outcome::Focus { index: 4 });
    assert_eq!(state.stage, LoopStage::Done { picked: None });
    let mut state = polling();
    state.handled(Outcome::Focus { index: 4 });
    assert!(state.sweep.is_some());
    assert_eq!(state.stage, LoopStage::Done { picked: Some(4) });
    assert_eq!(state.restore, None);
}

fn stages(events: &[ShowEvent]) -> ShowStage {
    let mut showing = OverviewApp::show_once();
    for event in events {
        showing.handle(*event);
    }
    showing.stage
}

#[test]
fn the_overview_is_hidden_before_a_window_is_focused() {
    let picked = ShowEvent::LoopEnded { picked: Some(3) };
    let closed = ShowEvent::LoopEnded { picked: None };
    assert_eq!(stages(&[]), ShowStage::Looping);
    assert_eq!(stages(&[picked]), ShowStage::Hiding { picked: Some(3), failed: false });
    assert_eq!(stages(&[picked]), Showing::ended(Some(3)).stage);
    assert_eq!(stages(&[picked, ShowEvent::Done]), ShowStage::Focusing { index: 3 });
    assert_eq!(stages(&[picked, ShowEvent::Done, ShowEvent::Done]), ShowStage::Over);
    assert_eq!(stages(&[closed, ShowEvent::Done]), ShowStage::Over);
    assert_eq!(stages(&[ShowEvent::Done, ShowEvent::Done]), ShowStage::Looping);
}

#[test]
fn failures_of_showing_are_told_apart() {
    let picked = ShowEvent::LoopEnded { picked: Some(3) };
    let (done, failed) = (ShowEvent::Done, ShowEvent::Failed);
    assert_eq!(stages(&[failed, done]), ShowStage::Failed(ShowError::Loop));
    assert_eq!(stages(&[failed, failed]), ShowStage::Failed(ShowError::Hide));
    assert_eq!(stages(&[picked, failed, done]), ShowStage::Failed(ShowError::Hide));
    assert_eq!(stages(&[picked, done, failed]), ShowStage::Failed(ShowError::Focus));
    assert_eq!(OverviewApp::run(true, true), Some(RunError::Show));
    assert_eq!(OverviewApp::run(true, false), Some(RunError::Show));
    assert_eq!(OverviewApp::run(false, true), Some(RunError::Cleanup));
    assert_eq!(OverviewApp::run(false, false), None);
}

fn read(arguments: &[&str]) -> Result<Command, String> {
    Args::parse(&arguments.iter().map(|text| text.to_string()).collect())
}

#[test]
fn arguments_are_read_in_turn() {
    let args = |list_windows, debug| Ok(Command::Run(Args { list_windows, debug }));
    assert_eq!(read(&[]), args(false, false));
    assert_eq!(read(&["--debug", "--list-windows", "--debug"]), args(true, true));
    assert_eq!(read(&["--list-windows"]), args(true, false));
    assert_eq!(read(&["--debug", "-h", "--bad"]), Ok(Command::Help));
    assert_eq!(read(&["--help"]), Ok(Command::Help));
    assert_eq!(
        read(&["--bad", "-h"]),
        Err(format!("unknown argument `--bad`\n\n{}", usage()))
    );
    assert!(usage().starts_with("Usage: tobyscope-x11 [--list-windows] [--debug]\n\nOptions:\n"));
    assert!(usage().ends_with("-h, --help      Show this help.\n"));
}
