use tobyscope_x11::app::AppTick;
use tobyscope_x11::config::AppConfig;
use tobyscope_x11::daemon::{
    answer, check_response, command_line, prepare_socket, read_message, show_command,
    socket_directory, socket_file_name, unreadable, BackgroundWork, Checks, DaemonMessage,
    DaemonState, Order, SharedStatus, ShowDecision, Snapshot, SocketPlace, TickPlan,
};
use tobyscope_x11::text::{
    comes_before, parse_unsigned, push_decimal, push_hex, push_padded_left, push_padded_right,
    push_signed, split_whitespace, starts_with, trim, white_space,
};

const MS: u128 = 1_000_000;

fn snapshot(windows: Option<usize>, model: &[&str], config: &str) -> Snapshot {
    Snapshot {
        windows,
        model_key: model.iter().map(|text| text.to_string()).collect(),
        config_key: config.to_string(),
        config: AppConfig::default().daemon,
    }
}

fn state() -> DaemonState {
    DaemonState::new(snapshot(Some(3), &["a", "b"], "c"), 1000 * MS)
}

#[test]
fn commands_are_answered() {
    let status = Some(SharedStatus { windows: 12, visible: true });
    let show = answer("show 123", status, 9);
    assert_eq!(show.message, Some(DaemonMessage::Show(123)));
    assert_eq!((show.response.as_str(), show.stop), ("ok\n", false));
    assert_eq!(answer("show", status, 9).message, Some(DaemonMessage::Show(9)));
    assert_eq!(answer("show soon", status, 9).message, Some(DaemonMessage::Show(9)));
    assert_eq!(answer("show -1", status, 9).message, Some(DaemonMessage::Show(9)));
    assert_eq!(answer(" show\t+77 x", status, 9).message, Some(DaemonMessage::Show(77)));
    let most = format!("show {}", u128::MAX);
    assert_eq!(answer(&most, status, 9).message, Some(DaemonMessage::Show(u128::MAX)));
    let past = format!("show {}0", u128::MAX);
    assert_eq!(answer(&past, status, 9).message, Some(DaemonMessage::Show(9)));
    let told = answer("status", status, 9);
    assert_eq!(told.message, None);
    assert_eq!(told.response, "ok windows=12 visible=true cache=warm\n");
    assert_eq!(answer("status", None, 9).response, "ok status=poisoned\n");
    let quit = answer("quit now", status, 9);
    assert_eq!(quit.message, Some(DaemonMessage::Quit));
    assert_eq!((quit.response.as_str(), quit.stop), ("ok quitting\n", true));
    assert_eq!(answer("  ", status, 9).response, "error empty command\n");
    let unknown = answer("hide me", status, 9);
    assert_eq!((unknown.message, unknown.stop), (None, false));
    assert_eq!(unknown.response, "error unknown command `hide`\n");
    assert_eq!(unreadable("failed to read"), "error failed to read\n");
}

#[test]
fn a_show_request_reads_back() {
    for time in [0u128, 9, 10, 1_700_000_000_123, u128::MAX] {
        let line = show_command(time);
        assert_eq!(line, format!("show {time}\n"));
        let received = read_message(line.as_bytes());
        assert_eq!(answer(&received, None, 5).message, Some(DaemonMessage::Show(time)));
    }
    assert_eq!(command_line("status"), "status\n");
}

#[test]
fn messages_are_decoded_leniently() {
    assert_eq!(read_message(b"  ok \xff \n"), "ok \u{fffd}");
    assert_eq!(read_message("\u{2003}grüß\u{a0}".as_bytes()), "grüß");
    assert_eq!(read_message(b""), "");
}

#[test]
fn only_consent_is_accepted() {
    assert_eq!(check_response("show", "ok"), Ok(()));
    assert_eq!(check_response("status", "ok windows=1"), Ok(()));
    assert_eq!(
        check_response("show", "error busy"),
        Err("daemon rejected `show`: error busy".to_string())
    );
    assert_eq!(check_response("show", ""), Err("daemon rejected `show`: ".to_string()));
}

#[test]
fn the_socket_has_its_place() {
    assert_eq!(socket_file_name(), "socket");
    assert_eq!(socket_directory(true, Some("u".to_string())), "tobyscope-x11");
    assert_eq!(socket_directory(false, Some("u".to_string())), "tobyscope-x11-u");
    assert_eq!(socket_directory(false, None), "tobyscope-x11-unknown");
    assert_eq!(prepare_socket(false, false), SocketPlace::Free);
    assert_eq!(prepare_socket(true, false), SocketPlace::Stale);
    assert_eq!(prepare_socket(true, true), SocketPlace::Taken);
}

#[test]
fn messages_become_orders() {
    let mut state = state();
    assert_eq!(state.handle_message(DaemonMessage::Show(4)), Order::Show { requested_at: 4 });
    assert!(!state.dirty);
    assert_eq!(state.handle_message(DaemonMessage::I3Changed), Order::Nothing);
    assert!(state.dirty);
    assert_eq!(state.handle_message(DaemonMessage::Quit), Order::Quit);
}

#[test]
fn late_requests_are_skipped() {
    let mut state = state();
    assert_eq!(state.show(5000, 5250), ShowDecision::Show);
    assert_eq!(state.show(5000, 5251), ShowDecision::Skip);
    assert_eq!(state.show(5000, 4000), ShowDecision::Show);
    assert_eq!(state.show(0, 0), ShowDecision::Skip);
    state.shown();
    assert_eq!(state.show(5000, 5000), ShowDecision::AlreadyVisible);
    state.ticked(AppTick::Idle, 6000);
    assert!(state.visible);
    state.ticked(AppTick::Focused, 6000);
    assert!(!state.visible);
    assert_eq!(state.show(6000, 6001), ShowDecision::Skip);
    assert_eq!(state.show(6001, 6001), ShowDecision::Show);
    state.ticked(AppTick::Closed, 7000);
    assert!(state.should_skip_show(7000, 7000));
    assert!(!state.should_skip_show(7001, 7000));
}

#[test]
fn nothing_ready_is_built_first() {
    let mut state = DaemonState::new(snapshot(None, &[], "c"), 0);
    assert_eq!(state.show(10, 10), ShowDecision::Rebuild);
    assert_eq!(state.window_count(), 0);
    assert_eq!(state.status(), SharedStatus { windows: 0, visible: false });
    assert_eq!(state.tick(), TickPlan::Hidden);
    state.shown();
    assert_eq!(state.tick(), TickPlan::Nothing);
    state.rebuild(snapshot(Some(4), &["x"], "d"), 77);
    assert_eq!(state.status(), SharedStatus { windows: 4, visible: false });
    assert_eq!((state.last_refresh_ns, state.last_model_check_ns), (77, 77));
    state.shown();
    assert_eq!(state.tick(), TickPlan::Overview);
}

#[test]
fn checks_come_at_intervals() {
    let mut state = state();
    assert_eq!(state.due_checks(1749 * MS), Checks { config: false, model: false });
    assert_eq!(state.due_checks(0), Checks { config: false, model: false });
    assert_eq!(state.due_checks(1750 * MS), Checks { config: true, model: false });
    assert_eq!(state.last_refresh_ns, 1750 * MS);
    state.handle_message(DaemonMessage::I3Changed);
    assert_eq!(state.due_checks(1760 * MS), Checks { config: false, model: true });
    assert_eq!(state.last_model_check_ns, 1760 * MS);
    assert_eq!(state.due_checks(1761 * MS), Checks { config: false, model: false });
}

#[test]
fn changes_are_rebuilt_and_the_rest_is_forgotten() {
    let mut state = state();
    state.handle_message(DaemonMessage::I3Changed);
    let same = || Some(vec!["a".to_string(), "b".to_string()]);
    assert!(state.refresh_hidden_state(Some("other".to_string()), None));
    assert!(state.dirty);
    assert!(state.refresh_hidden_state(None, Some(vec!["a".to_string()])));
    assert!(!state.refresh_hidden_state(Some("c".to_string()), None));
    assert!(state.dirty);
    assert!(!state.refresh_hidden_state(None, same()));
    assert!(!state.dirty);
    assert!(!state.refresh_hidden_state(None, None));
    assert!(state.refresh_hidden_state(None, Some(vec!["a".to_string(), "c".to_string()])));
}

#[test]
fn background_work_comes_at_intervals() {
    let mut state = state();
    let work = |start_capture, step| BackgroundWork { start_capture, step };
    assert_eq!(state.background(1500 * MS), work(false, true));
    assert_eq!(state.background(1750 * MS), work(true, true));
    assert_eq!(state.background(1751 * MS), work(false, true));
    state.config.background_current_workspace_refresh = false;
    assert_eq!(state.background(9000 * MS), work(false, true));
    state.windows = None;
    assert_eq!(state.background(9000 * MS), work(false, false));
}

#[test]
fn white_space_is_that_of_unicode() {
    for code in 0..=0x10_ffffu32 {
        if let Some(ch) = char::from_u32(code) {
            assert_eq!(white_space(ch), ch.is_whitespace());
        }
    }
}

#[test]
fn text_is_cut_as_std_cuts_it() {
    for text in ["", " ", " a b ", "\u{3000}x\ty\r\n\nz", "word", "  é  ü"] {
        assert_eq!(trim(text), text.trim());
        let native: Vec<String> = text.split_whitespace().map(str::to_string).collect();
        assert_eq!(split_whitespace(text), native);
    }
    assert!(starts_with("okay", "ok") && !starts_with("o", "ok") && starts_with("x", ""));
    for (a, b) in [("", "a"), ("a", "a"), ("a", "b"), ("ab", "b"), ("é", "z"), ("\u{e000}", "\u{10000}")] {
        assert_eq!(comes_before(a, b), a < b);
        assert_eq!(comes_before(b, a), b < a);
    }
}

#[test]
fn numbers_are_written_as_std_writes_them() {
    for number in [0u128, 7, 10, 4096, u128::MAX] {
        let mut out = "n=".to_string();
        push_decimal(&mut out, number);
        assert_eq!(out, format!("n={number}"));
        assert_eq!(parse_unsigned(&out[2..], 10), Some(number));
    }
    for number in [0i64, -1, i64::MIN, i64::MAX] {
        let mut out = String::new();
        push_signed(&mut out, number);
        assert_eq!(out, format!("{number}"));
    }
    let mut out = String::new();
    push_hex(&mut out, 0xbeef, 8);
    push_padded_left(&mut out, "ab", 4);
    push_padded_right(&mut out, "cd", 4);
    push_padded_left(&mut out, "abcdef", 4);
    assert_eq!(out, "0000beef  abcd  abcdef");
    for text in ["", "+", "12", "+12", "-1", "1a", "fF", "+0f", " 1"] {
        assert_eq!(parse_unsigned(text, 10), text.parse::<u128>().ok());
        assert_eq!(parse_unsigned(text, 16), u128::from_str_radix(text, 16).ok());
    }
}
