use tobyscope_x11::atoms::Atoms;
use tobyscope_x11::i3::{
    check_outcomes, close_con, collect_candidates, current_workspace, escape_i3_string,
    focus_con, refresh_geometry, switch_workspace, arrange, Candidate, CandidateInspection,
    CommandOutcome, TreeNode, WorkspaceEntry,
};
use tobyscope_x11::overlay::{OVERLAY_CLASS, OVERLAY_NAME};
use tobyscope_x11::windows::{
    distinct, fall_back, focus_window, instance_and_class, model_key, print_window_list,
    read_string_property, read_wm_class, shown_text, split_at_zeros, window_line, window_list,
    FocusAction, FocusError, FocusMessage, FocusStage, Inspection, ListQuestion, WindowGeometry,
    WindowInfo, WindowSource,
};
use tobyscope_x11::x11::{
    require_display, require_extension, require_extensions, Extension, ExtensionAction,
    ExtensionAnswer, ExtensionError, ExtensionStage, Extent, Fault, Property, Question,
    Reply, WindowAttributes,
};
use x11rb::protocol::xproto::{AtomEnum, EventMask, InputFocus};
use x11rb::protocol::{composite, render};

fn attributes(override_redirect: bool, viewable: bool, input_output: bool) -> Reply {
    Reply::Attributes(WindowAttributes {
        override_redirect,
        viewable,
        input_output,
        visual: 0x21,
    })
}

fn size(width: u16, height: u16) -> Reply {
    Reply::Geometry(Extent { x: 1, y: 2, width, height, depth: 24 })
}

fn property(value: &[u8]) -> Reply {
    Reply::Property(Property { kind: 31, format: 8, value: value.to_vec() })
}

fn info(id: u32, workspace: &str, num: Option<i32>, order: usize) -> WindowInfo {
    WindowInfo {
        id,
        name: "name".to_string(),
        instance: None,
        class: None,
        workspace: workspace.to_string(),
        workspace_num: num,
        i3_con_id: None,
        tree_order: order,
        urgent: false,
        focused: false,
        geometry: WindowGeometry { x: 0, y: 0, width: 1, height: 1, depth: 24, visual: 1 },
    }
}

fn found(inspection: Inspection) -> WindowInfo {
    match inspection {
        Inspection::Found(window) => window,
        other => panic!("{other:?}"),
    }
}

#[test]
fn repeated_windows_are_listed_once() {
    assert_eq!(distinct(&vec![5, 3, 5, 4, 3, 5]), vec![5, 3, 4]);
    assert!(distinct(&vec![]).is_empty());
}

#[test]
fn empty_lists_fall_back() {
    assert_eq!(
        fall_back(WindowSource::StackingList, &vec![]),
        Some(WindowSource::ClientList)
    );
    assert_eq!(fall_back(WindowSource::ClientList, &vec![]), Some(WindowSource::RootChildren));
    assert_eq!(fall_back(WindowSource::RootChildren, &vec![]), None);
    assert_eq!(fall_back(WindowSource::StackingList, &vec![1]), None);
}

#[test]
fn window_lists_are_numbers_of_the_machine() {
    let mut value = Vec::new();
    for id in [7u32, 0x0102_0304] {
        value.extend(id.to_ne_bytes());
    }
    value.push(9);
    let list = window_list(&Property { kind: 33, format: 32, value: value.clone() });
    assert_eq!(list, vec![7, 0x0102_0304]);
    assert!(window_list(&Property { kind: 33, format: 8, value }).is_empty());
}

#[test]
fn an_ordinary_window_is_described() {
    let state = Inspection::Attributes;
    let state = state.handle(0x2a, &attributes(false, true, true));
    let state = state.handle(0x2a, &size(640, 480));
    let state = state.handle(0x2a, &Reply::Position { same_screen: true, x: -5, y: 70 });
    let state = state.handle(0x2a, &property("  Editor \0rest".as_bytes()));
    let window = found(state.handle(0x2a, &property(b"code\0Code\0")));
    assert_eq!(window.id, 0x2a);
    assert_eq!(window.name, "Editor");
    assert_eq!(window.instance.as_deref(), Some("code"));
    assert_eq!(window.class.as_deref(), Some("Code"));
    assert_eq!((window.geometry.x, window.geometry.y), (-5, 70));
    assert_eq!((window.geometry.width, window.geometry.height), (640, 480));
    assert_eq!((window.geometry.depth, window.geometry.visual), (24, 0x21));
    assert_eq!(window.workspace, "");
    assert_eq!(window.i3_con_id, None);
}

#[test]
fn a_nameless_window_is_named_by_its_number() {
    let state = Inspection::Attributes.handle(0x2a, &attributes(false, true, true));
    let state = state.handle(0x2a, &size(1, 1));
    let state = state.handle(0x2a, &Reply::Position { same_screen: false, x: 9, y: 9 });
    let state = state.handle(0x2a, &Reply::Failed);
    assert!(matches!(state, Inspection::PlainName { .. }));
    let state = state.handle(0x2a, &property(b"\0"));
    let window = found(state.handle(0x2a, &Reply::Failed));
    assert_eq!(window.name, "0x0000002a");
    assert_eq!((window.geometry.x, window.geometry.y), (1, 2));
    assert_eq!((window.instance, window.class), (None, None));
}

#[test]
fn the_plain_name_stands_in() {
    let geometry = WindowGeometry { x: 0, y: 0, width: 1, height: 1, depth: 1, visual: 1 };
    let state = Inspection::PlainName { geometry };
    let state = state.handle(1, &property(b"xterm"));
    assert_eq!(found(state.handle(1, &property(b"only\0"))).name, "xterm");
}

#[test]
fn windows_that_are_not_shown_are_skipped() {
    for reply in [
        attributes(true, true, true),
        attributes(false, false, true),
        attributes(false, true, false),
        Reply::Failed,
        size(3, 3),
    ] {
        assert!(matches!(Inspection::Attributes.handle(1, &reply), Inspection::Skipped));
    }
    for reply in [size(0, 5), size(5, 0), Reply::Failed] {
        let state = Inspection::Geometry { visual: 1 };
        assert!(matches!(state.handle(1, &reply), Inspection::Skipped));
    }
    assert!(matches!(Inspection::Skipped.handle(1, &size(4, 4)), Inspection::Skipped));
}

#[test]
fn properties_are_decoded_leniently() {
    assert_eq!(read_string_property(&property(b" a\xffb ")).as_deref(), Some("a\u{fffd}b"));
    assert_eq!(read_string_property(&property(b"first\0second")).as_deref(), Some("first"));
    assert_eq!(read_string_property(&property(b" \t ")), None);
    assert_eq!(read_string_property(&property(b"")), None);
    let untyped = Reply::Property(Property { kind: 0, format: 8, value: b"x".to_vec() });
    assert_eq!(read_string_property(&untyped), None);
    let wide = Reply::Property(Property { kind: 31, format: 16, value: b"xy".to_vec() });
    assert_eq!(read_string_property(&wide), None);
    assert_eq!(read_string_property(&Reply::Failed), None);
}

#[test]
fn classes_skip_empty_parts() {
    let both = (Some("a".to_string()), Some("b".to_string()));
    assert_eq!(read_wm_class(&property(b"\0a\0 \0b\0c")), both);
    assert_eq!(read_wm_class(&property(b"a")), (Some("a".to_string()), None));
    assert_eq!(read_wm_class(&property(b"\0\0")), (None, None));
    assert_eq!(read_wm_class(&Reply::Failed), (None, None));
}

#[test]
fn bytes_are_split_at_zeros() {
    let parts: Vec<Vec<u8>> = vec![b"a".to_vec(), vec![], b"bc".to_vec(), vec![]];
    assert_eq!(split_at_zeros(&b"a\0\0bc\0".to_vec()), parts);
    assert_eq!(split_at_zeros(&vec![]), vec![Vec::<u8>::new()]);
    assert_eq!(shown_text("  two words\n").as_deref(), Some("two words"));
    assert_eq!(shown_text("\t \u{a0}"), None);
    let names: Vec<String> = ["a", "b", "c"].iter().map(|text| text.to_string()).collect();
    assert_eq!(instance_and_class(&names), (Some("a".to_string()), Some("b".to_string())));
    assert_eq!(instance_and_class(&vec![]), (None, None));
}

#[test]
fn the_overlay_is_known_by_its_class() {
    let name = Some("tobyscope-x11".to_string());
    assert_eq!(OVERLAY_CLASS, *b"tobyscope-x11\0tobyscope-x11\0");
    assert_eq!(OVERLAY_NAME, *b"tobyscope-x11");
    assert_eq!(read_wm_class(&property(&OVERLAY_CLASS)), (name.clone(), name));
}

#[test]
fn lines_of_the_window_list_match_the_native_format() {
    let mut window = info(0x1a, "1", Some(1), 0);
    window.geometry =
        WindowGeometry { x: -7, y: 1200, width: 80, height: 12345, depth: 32, visual: 0xabc };
    let native = |index: usize, class: &str| {
        format!(
            "{:>2}. 0x{:08x} {:>4}x{:<4} {:+5}{:+5} depth={} visual=0x{:08x} class={} name={}",
            index + 1,
            0x1a,
            80,
            12345,
            -7,
            1200,
            32,
            0xabc,
            class,
            "name"
        )
    };
    assert_eq!(window_line(0, &window), native(0, "-"));
    window.instance = Some("inst".to_string());
    assert_eq!(window_line(8, &window), native(8, "inst"));
    window.class = Some("Class".to_string());
    assert_eq!(window_line(122, &window), native(122, "Class"));
    let list = print_window_list(&[window.clone(), window.clone()]);
    assert_eq!(list, vec![native(0, "Class"), native(1, "Class")]);
}

#[test]
fn the_model_key_tells_workspaces_apart() {
    let here = model_key(&[info(1, "1", None, 0)]);
    let there = model_key(&[info(1, "2", None, 0)]);
    assert_eq!(here.len(), 1);
    assert_ne!(here, there);
    assert_eq!(here, model_key(&[info(1, "1", None, 0)]));
}

fn atoms() -> Atoms {
    Atoms {
        net_client_list: 400,
        net_client_list_stacking: 401,
        net_wm_name: 402,
        net_active_window: 300,
        utf8_string: 403,
    }
}

#[test]
fn each_source_of_windows_has_its_question() {
    let kind = u32::from(AtomEnum::WINDOW);
    let list = |property| ListQuestion::Property { window: 7, property, kind, length: 1024 * 1024 };
    assert_eq!(WindowSource::StackingList.question(7, &atoms()), list(401));
    assert_eq!(WindowSource::ClientList.question(7, &atoms()), list(400));
    assert_eq!(
        WindowSource::RootChildren.question(7, &atoms()),
        ListQuestion::Children { window: 7 }
    );
}

#[test]
fn an_inspection_asks_in_turn() {
    let property = |property: u32, kind: u32| {
        Some(Question::Property { window: 9, property, kind, length: 1024 })
    };
    let string = u32::from(AtomEnum::STRING);
    let steps = [
        (attributes(false, true, true), Some(Question::Attributes { window: 9 })),
        (size(30, 40), Some(Question::Geometry { window: 9 })),
        (Reply::Failed, Some(Question::Position { window: 9, destination: 7 })),
        (Reply::Failed, property(402, 403)),
        (Reply::Failed, property(u32::from(AtomEnum::WM_NAME), string)),
        (Reply::Failed, property(u32::from(AtomEnum::WM_CLASS), string)),
    ];
    let mut state = Inspection::Attributes;
    for (reply, question) in steps {
        assert_eq!(state.question(9, 7, &atoms()), question);
        state = state.handle(9, &reply);
    }
    assert_eq!(state.question(9, 7, &atoms()), None);
    assert_eq!(found(state).id, 9);
}

#[test]
fn focus_is_asked_for_as_a_pager() {
    let redirect = u32::from(EventMask::SUBSTRUCTURE_REDIRECT);
    let notify = u32::from(EventMask::SUBSTRUCTURE_NOTIFY);
    assert_eq!(
        focus_window(99, 7, &atoms()).action(),
        FocusAction::SendMessage {
            destination: 7,
            propagate: false,
            mask: redirect | notify,
            message: FocusMessage { kind: 300, format: 32, window: 99, data: [2, 0, 0, 0, 0] },
        }
    );
}

#[test]
fn a_refused_focus_message_ends_the_focus() {
    for (fault, text) in [
        (Fault::Send, "failed to send _NET_ACTIVE_WINDOW client message"),
        (Fault::Reply, "_NET_ACTIVE_WINDOW client message was rejected by X11"),
    ] {
        let mut focusing = focus_window(99, 7, &atoms());
        focusing.handle(Err(fault));
        let end = FocusError::Message(fault);
        assert_eq!(focusing.stage, FocusStage::Failed(end));
        assert_eq!(end.message(), text);
        assert_eq!(focusing.action(), FocusAction::Nothing);
        focusing.handle(Ok(()));
        assert_eq!(focusing.action(), FocusAction::Nothing);
    }
}

#[test]
fn a_taken_focus_message_focuses_and_raises() {
    for answer in [Ok(()), Err(Fault::Send), Err(Fault::Reply)] {
        let mut focusing = focus_window(99, 7, &atoms());
        focusing.handle(Ok(()));
        let pointer_root = u8::from(InputFocus::POINTER_ROOT);
        assert_eq!(
            focusing.action(),
            FocusAction::SetInputFocus { window: 99, revert_to: pointer_root, time: 0 }
        );
        focusing.handle(answer);
        assert_eq!(focusing.action(), FocusAction::Raise { window: 99 });
        focusing.handle(answer);
        assert_eq!(focusing.action(), FocusAction::Flush);
        let mut other = focusing;
        focusing.handle(Ok(()));
        assert_eq!(focusing.stage, FocusStage::Done);
        other.handle(Err(Fault::Send));
        assert_eq!(other.stage, FocusStage::Failed(FocusError::Flush));
        assert_eq!(FocusError::Flush.message(), "failed to flush focus requests");
    }
}

#[test]
fn both_extensions_are_required() {
    let mut check = require_extensions();
    assert_eq!(check.action(), ExtensionAction::Inspect { extension: Extension::Composite });
    check.handle(ExtensionAnswer::Version);
    check.handle(ExtensionAnswer::Present(true));
    assert_eq!(check.action(), ExtensionAction::Inspect { extension: Extension::Render });
    let mut missing = check;
    missing.handle(ExtensionAnswer::Present(false));
    assert_eq!(
        missing.stage,
        ExtensionStage::Failed(ExtensionError::Missing(Extension::Render))
    );
    check.handle(ExtensionAnswer::Present(true));
    assert_eq!(
        check.action(),
        ExtensionAction::QueryVersion { extension: Extension::Composite, major: 0, minor: 4 }
    );
    check.handle(ExtensionAnswer::Version);
    assert_eq!(
        check.action(),
        ExtensionAction::QueryVersion { extension: Extension::Render, major: 0, minor: 11 }
    );
    let mut silent = check;
    silent.handle(ExtensionAnswer::Failed(Fault::Reply));
    assert_eq!(
        silent.stage,
        ExtensionStage::Failed(ExtensionError::Query(Extension::Render, Fault::Reply))
    );
    check.handle(ExtensionAnswer::Version);
    assert_eq!((check.stage, check.action()), (ExtensionStage::Ready, ExtensionAction::Nothing));
    let mut lost = require_extensions();
    lost.handle(ExtensionAnswer::Failed(Fault::Send));
    assert_eq!(
        lost.stage,
        ExtensionStage::Failed(ExtensionError::Inspect(Extension::Composite))
    );
}

#[test]
fn extension_failures_have_words() {
    assert_eq!(Extension::Composite.name(), composite::X11_EXTENSION_NAME);
    assert_eq!(Extension::Render.name(), render::X11_EXTENSION_NAME);
    for (error, text) in [
        (
            ExtensionError::Inspect(Extension::Composite),
            "failed to inspect X11 extension `Composite`",
        ),
        (
            ExtensionError::Missing(Extension::Render),
            "required X11 extension `RENDER` is not available on this display",
        ),
        (
            ExtensionError::Query(Extension::Composite, Fault::Send),
            "failed to query XComposite version",
        ),
        (
            ExtensionError::Query(Extension::Render, Fault::Reply),
            "XRender version query failed",
        ),
    ] {
        assert_eq!(error.message(), text);
    }
}

#[test]
fn a_missing_extension_is_told() {
    assert_eq!(require_extension("Composite", true), Ok(()));
    assert_eq!(
        require_extension("RENDER", false),
        Err("required X11 extension `RENDER` is not available on this display".to_string())
    );
}

#[test]
fn a_display_has_to_be_named() {
    assert_eq!(require_display(Some(":0".to_string())), Ok(()));
    assert_eq!(require_display(Some(String::new())), Ok(()));
    assert_eq!(
        require_display(None),
        Err(
            "DISPLAY is not set. tobyscope-x11 only works inside a Linux X11 session, \
             not pure Wayland/headless mode."
        )
    );
}

fn node(id: i64, name: &str, window: Option<i32>) -> TreeNode {
    TreeNode {
        id,
        name: Some(name.to_string()),
        is_workspace: false,
        window,
        x: 0,
        y: 0,
        title: None,
        instance: None,
        class: None,
        urgent: false,
        focused: false,
        nodes: vec![],
        floating_nodes: vec![],
    }
}

fn workspace(name: &str, nodes: Vec<TreeNode>) -> TreeNode {
    TreeNode { is_workspace: true, nodes, ..node(1000, name, None) }
}

fn entry(name: &str, num: i32, focused: bool) -> WorkspaceEntry {
    WorkspaceEntry { name: name.to_string(), num, focused }
}

#[test]
fn the_tree_is_walked_in_order() {
    let mut first = workspace("1", vec![node(10, "a", Some(100)), node(11, "b", None)]);
    first.nodes[1].nodes.push(node(12, "c", Some(101)));
    first.floating_nodes.push(node(13, "d", Some(-1)));
    let mut tree = node(1, "root", Some(7));
    tree.nodes.push(first);
    tree.nodes.push(workspace("__i3_scratch", vec![node(20, "hidden", Some(102))]));
    tree.nodes.push(workspace("unlisted", vec![node(21, "lost", Some(103))]));
    tree.nodes.push(workspace("web", vec![node(22, "e", Some(104))]));
    tree.nodes[0].nodes[0].x = 70_000;
    tree.nodes[0].nodes[0].y = -70_000;
    let entries = vec![entry("1", 1, false), entry("web", -1, true), entry("__i3_scratch", -1, false)];
    let list = collect_candidates(&tree, &entries);
    let seen: Vec<(u32, i64, &str, Option<i32>, usize)> = list
        .iter()
        .map(|c| (c.window, c.con_id, c.workspace.as_str(), c.workspace_num, c.tree_order))
        .collect();
    assert_eq!(
        seen,
        vec![
            (100, 10, "1", Some(1), 0),
            (101, 12, "1", Some(1), 1),
            (u32::MAX, 13, "1", Some(1), 2),
            (104, 22, "web", None, 3),
        ]
    );
    assert_eq!((list[0].x, list[0].y), (70_000i32 as i16, -70_000i32 as i16));
    assert_eq!(current_workspace(&entries).as_deref(), Some("web"));
    assert_eq!(current_workspace(&vec![]), None);
}

#[test]
fn the_last_workspace_of_a_name_counts() {
    let tree = workspace("1", vec![node(10, "a", Some(100))]);
    let list = collect_candidates(&tree, &vec![entry("1", 4, false), entry("1", 5, false)]);
    assert_eq!(list[0].workspace_num, Some(5));
}

fn candidate() -> Candidate {
    Candidate {
        window: 0x2a,
        con_id: 77,
        x: 300,
        y: 400,
        name: Some("container".to_string()),
        title: Some("title".to_string()),
        instance: None,
        class: Some("FromI3".to_string()),
        workspace: "3: mail".to_string(),
        workspace_num: Some(3),
        tree_order: 9,
        urgent: true,
        focused: false,
    }
}

fn inspected(candidate: &Candidate, viewable: bool) -> WindowInfo {
    let window = candidate.window;
    let mut state = CandidateInspection::Attributes;
    assert_eq!(state.question(candidate, 7), Some(Question::Attributes { window }));
    state = state.handle(candidate, &attributes(false, viewable, true));
    assert_eq!(state.question(candidate, 7), Some(Question::Geometry { window }));
    state = state.handle(candidate, &size(20, 30));
    if viewable {
        let question = Question::Position { window, destination: 7 };
        assert_eq!(state.question(candidate, 7), Some(question));
        state = state.handle(candidate, &Reply::Position { same_screen: true, x: 5, y: 6 });
    }
    let class = Question::Property {
        window,
        property: u32::from(AtomEnum::WM_CLASS),
        kind: u32::from(AtomEnum::STRING),
        length: 1024,
    };
    assert_eq!(state.question(candidate, 7), Some(class));
    match state.handle(candidate, &property(b"inst\0Class\0")) {
        CandidateInspection::Found(window) => window,
        other => panic!("{other:?}"),
    }
}

#[test]
fn candidates_take_their_names_from_i3_first() {
    let window = inspected(&candidate(), true);
    assert_eq!(window.name, "title");
    assert_eq!(window.instance.as_deref(), Some("inst"));
    assert_eq!(window.class.as_deref(), Some("FromI3"));
    assert_eq!((window.workspace.as_str(), window.workspace_num), ("3: mail", Some(3)));
    assert_eq!((window.i3_con_id, window.tree_order), (Some(77), 9));
    assert_eq!((window.urgent, window.focused), (true, false));
    assert_eq!((window.geometry.x, window.geometry.y), (5, 6));
    let untitled = Candidate { title: None, ..candidate() };
    assert_eq!(inspected(&untitled, true).name, "container");
    let nameless = Candidate { title: None, name: None, ..candidate() };
    assert_eq!(inspected(&nameless, true).name, "0x0000002a");
}

#[test]
fn candidates_off_screen_stand_where_i3_keeps_them() {
    let window = inspected(&candidate(), false);
    assert_eq!((window.geometry.x, window.geometry.y), (300, 400));
    assert_eq!((window.geometry.width, window.geometry.height), (20, 30));
}

#[test]
fn candidates_without_pixels_are_skipped() {
    let it = candidate();
    for reply in [attributes(true, true, true), attributes(false, true, false), Reply::Failed] {
        let next = CandidateInspection::Attributes.handle(&it, &reply);
        assert!(matches!(next, CandidateInspection::Skipped));
    }
    let state = CandidateInspection::Geometry { visual: 1, viewable: true };
    assert!(matches!(state.handle(&it, &size(0, 1)), CandidateInspection::Skipped));
}

#[test]
fn windows_are_arranged_by_workspace_and_tree() {
    let list = vec![
        info(1, "z", None, 0),
        info(2, "10", Some(10), 5),
        info(3, "2", Some(2), 9),
        info(4, "2", Some(2), 4),
        info(5, "a", None, 8),
        info(7, "2", Some(2), 9),
        info(6, "2: b", Some(2), 0),
    ];
    let ids: Vec<u32> = arrange(list).iter().map(|window| window.id).collect();
    assert_eq!(ids, vec![4, 3, 7, 6, 2, 5, 1]);
    assert!(arrange(vec![]).is_empty());
}

#[test]
fn arranging_keeps_ties_in_order_as_a_stable_sort_does() {
    let mut list = Vec::new();
    for index in 0..40u32 {
        let mut window = info(index % 3, ["b", "a"][index as usize % 2], None, (index % 4) as usize);
        window.name = format!("{index}");
        list.push(window);
    }
    let mut native = list.clone();
    native.sort_by_key(|w| (w.workspace_num.unwrap_or(i32::MAX), w.workspace.clone(), w.tree_order, w.id));
    let names: Vec<String> = arrange(list).into_iter().map(|window| window.name).collect();
    let expected: Vec<String> = native.into_iter().map(|window| window.name).collect();
    assert_eq!(names, expected);
}

#[test]
fn names_are_escaped_for_commands() {
    assert_eq!(escape_i3_string(r#"a"b\c"#), r#"a\"b\\c"#);
    let native = r#"\"x\\"#.replace('\\', "\\\\").replace('"', "\\\"");
    assert_eq!(escape_i3_string(r#"\"x\\"#), native);
    assert_eq!(switch_workspace(r#"1: "x""#), r#"workspace "1: \"x\"""#);
    assert_eq!(close_con(-5), "[con_id=-5] close");
    let commands = focus_con(94_000_000_000, "2");
    assert_eq!(commands[0].command, "workspace \"2\"");
    assert_eq!(commands[1].command, "[con_id=94000000000] focus");
    assert_eq!((commands[0].pause_ms, commands[1].pause_ms), (60, 40));
}

#[test]
fn the_first_rejection_is_told() {
    let good = || CommandOutcome { success: true, error: None };
    let bad = |text: Option<&str>| CommandOutcome {
        success: false,
        error: text.map(str::to_string),
    };
    assert_eq!(check_outcomes("x", &vec![good(), good()]), Ok(()));
    assert_eq!(
        check_outcomes("x", &vec![good(), bad(Some("no such")), bad(None)]),
        Err("i3 rejected `x`: no such".to_string())
    );
    assert_eq!(
        check_outcomes("y", &vec![bad(None)]),
        Err("i3 rejected `y`: unknown error".to_string())
    );
}

#[test]
fn geometry_is_refreshed_from_the_server() {
    let extent = Extent { x: -3, y: 4, width: 5, height: 6, depth: 24 };
    let geometry = refresh_geometry(0x21, &extent);
    assert_eq!((geometry.x, geometry.y, geometry.width, geometry.height), (-3, 4, 5, 6));
    assert_eq!((geometry.depth, geometry.visual), (24, 0x21));
}
