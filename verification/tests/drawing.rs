use tobyscope_x11::layout::{compute, Layout, LayoutItem, Rect};
use tobyscope_x11::overlay::{
    OverlayAction, OverlayError, OverlayEvent, OverlaySetup, OverlayStage,
};
use tobyscope_x11::render::{
    ascii_label, failed_slot, fixed_ratio, pict_format_for_visual, DrawOp, Gcs, Overlay,
    PictVisual, Release, Renderer, ServerEvent, Shade, Thumbnail, ThumbnailAction,
    ThumbnailError, ThumbnailSetup, ThumbnailSlot, ThumbnailStage, ThumbnailState,
};
use tobyscope_x11::windows::{WindowGeometry, WindowInfo};
use tobyscope_x11::x11::{Fault, RootWindow};
use x11rb::protocol::composite::Redirect;
use x11rb::protocol::xproto::{EventMask, SubwindowMode};

fn window(id: u32, name: &str) -> WindowInfo {
    WindowInfo {
        id,
        name: name.to_string(),
        instance: None,
        class: None,
        workspace: "1".to_string(),
        workspace_num: None,
        i3_con_id: None,
        tree_order: 0,
        urgent: false,
        focused: false,
        geometry: WindowGeometry { x: 0, y: 0, width: 800, height: 600, depth: 24, visual: 33 },
    }
}

fn overlay() -> Overlay {
    Overlay {
        window: 1,
        picture: 2,
        gcs: Gcs {
            background: 3,
            cell: 4,
            cell_hover: 5,
            border: 6,
            selected: 7,
            text: 8,
            error: 9,
            font: 10,
        },
        width: 1000,
        height: 500,
    }
}

fn ready(window: u32) -> ThumbnailSlot {
    ThumbnailSlot {
        window,
        redirected: true,
        state: ThumbnailState::Ready(Thumbnail {
            pixmap: 20,
            picture: 21,
            width: 800,
            height: 600,
        }),
    }
}

fn broken(window: u32) -> ThumbnailSlot {
    ThumbnailSlot {
        window,
        redirected: false,
        state: ThumbnailState::Error("no luck".to_string()),
    }
}

fn rect(x: i16, y: i16, width: u16, height: u16) -> Rect {
    Rect { x, y, width, height }
}

fn layout() -> Layout {
    Layout {
        columns: 2,
        items: vec![
            LayoutItem { cell: rect(10, 20, 100, 90), preview: rect(20, 30, 80, 40) },
            LayoutItem { cell: rect(120, 20, 100, 90), preview: rect(130, 30, 80, 40) },
        ],
    }
}

fn words(op: &DrawOp) -> String {
    match op {
        DrawOp::Fill { rect, shade } => {
            format!("{shade:?} {},{} {}x{}", rect.x, rect.y, rect.width, rect.height)
        }
        DrawOp::Thumbnail { slot, rect, scale_x, scale_y } => {
            format!("slot {slot} at {},{} by {scale_x:#x},{scale_y:#x}", rect.x, rect.y)
        }
        DrawOp::Text { x, y, bytes } => {
            format!("text {x},{y} {}", String::from_utf8(bytes.clone()).unwrap())
        }
    }
}

#[test]
fn a_frame_is_drawn_from_back_to_front() {
    let renderer = Renderer { overlay: overlay(), thumbnails: vec![ready(1), broken(2)] };
    let windows = [window(1, "one"), window(2, "two")];
    assert!(renderer.can_redraw(&windows, &layout(), 1));
    let ops: Vec<String> = renderer.redraw(&windows, &layout(), 1).iter().map(words).collect();
    assert_eq!(
        ops,
        vec![
            "Background 0,0 1000x500",
            "Cell 10,20 100x90",
            "slot 0 at 20,30 by 0xa0000,0xf0000",
            "text 20,99 one",
            "Border 10,20 100x2",
            "Border 10,108 100x2",
            "Border 10,20 2x90",
            "Border 108,20 2x90",
            "CellHover 120,20 100x90",
            "Error 130,30 80x40",
            "text 138,50 preview error: no luck",
            "text 130,99 two",
            "Selected 120,20 100x4",
            "Selected 120,106 100x4",
            "Selected 120,20 4x90",
            "Selected 216,20 4x90",
        ]
    );
}

#[test]
fn missing_slots_and_empty_areas_are_handled() {
    let mut renderer = Renderer { overlay: overlay(), thumbnails: vec![] };
    renderer.update_size(0, 500);
    assert_eq!(renderer.size(), (0, 500));
    assert_eq!(renderer.overlay_window(), 1);
    let thin = Layout {
        columns: 1,
        items: vec![LayoutItem { cell: rect(0, 0, 50, 50), preview: rect(5, 5, 0, 30) }],
    };
    let ops: Vec<String> =
        renderer.redraw(&[window(1, "")], &thin, 7).iter().map(words).collect();
    assert_eq!(
        ops,
        vec![
            "Cell 0,0 50x50",
            "text 13,20 preview error: preview missing",
            "Border 0,0 50x2",
            "Border 0,48 50x2",
            "Border 0,0 2x50",
            "Border 48,0 2x50",
        ]
    );
}

#[test]
fn frames_past_the_coordinates_are_refused() {
    let renderer = Renderer { overlay: overlay(), thumbnails: vec![ready(1)] };
    let far = Layout {
        columns: 1,
        items: vec![LayoutItem {
            cell: rect(32_760, 0, 100, 100),
            preview: rect(32_760, 0, 10, 10),
        }],
    };
    assert!(!renderer.can_redraw(&[window(1, "x")], &far, 0));
    let windows: Vec<WindowInfo> = (0..20).map(|id| window(id, "x")).collect();
    assert!(renderer.can_redraw(&windows, &compute(1920, 1080, &windows), 3));
}

#[test]
fn labels_are_ascii() {
    assert_eq!(ascii_label("Mail - 3", 96), b"Mail - 3".to_vec());
    assert_eq!(ascii_label("äö x\tü", 96), b"? x?".to_vec());
    assert_eq!(ascii_label("??é?", 96), b"???".to_vec());
    assert_eq!(ascii_label("abcdef", 3), b"abc".to_vec());
    assert_eq!(ascii_label("éa", 1), b"?".to_vec());
    assert!(ascii_label("abc", 0).is_empty());
}

#[test]
fn ratios_are_fixed_point() {
    assert_eq!(fixed_ratio(800, 400), 0x2_0000);
    assert_eq!(fixed_ratio(1, 3), 0x5555);
    assert_eq!(fixed_ratio(5, 0), 0x1_0000);
    for (source, destination) in [(65_535u16, 1u16), (40_000, 1), (32_768, 1), (65_535, 2)] {
        let native = (((source as i64) << 16) / destination as i64) as i32;
        assert_eq!(fixed_ratio(source, destination), native);
    }
}

#[test]
fn the_first_format_of_a_visual_is_taken() {
    let screens = vec![
        vec![vec![], vec![PictVisual { visual: 1, format: 11 }]],
        vec![vec![PictVisual { visual: 2, format: 12 }, PictVisual { visual: 1, format: 13 }]],
    ];
    assert_eq!(pict_format_for_visual(&screens, 1), Some(11));
    assert_eq!(pict_format_for_visual(&screens, 2), Some(12));
    assert_eq!(pict_format_for_visual(&screens, 3), None);
}

#[test]
fn cleanup_gives_everything_back() {
    let renderer = Renderer { overlay: overlay(), thumbnails: vec![ready(70), broken(71)] };
    assert_eq!(
        renderer.cleanup(),
        vec![
            Release::Picture(21),
            Release::Pixmap(20),
            Release::Redirection(70),
            Release::UngrabKeyboard,
            Release::Picture(2),
            Release::Gc(3),
            Release::Gc(4),
            Release::Gc(5),
            Release::Gc(6),
            Release::Gc(7),
            Release::Gc(8),
            Release::Gc(9),
            Release::Font(10),
            Release::Window(1),
        ]
    );
}

#[test]
fn a_replaced_thumbnail_is_given_back() {
    let mut renderer = Renderer { overlay: overlay(), thumbnails: vec![ready(70), broken(71)] };
    let thumbnail = Thumbnail { pixmap: 30, picture: 31, width: 1, height: 2 };
    let list = renderer.replace(0, ThumbnailState::Ready(thumbnail));
    assert_eq!(
        list,
        vec![Release::Picture(21), Release::Pixmap(20), Release::Redirection(70)]
    );
    assert!(!renderer.thumbnails[0].redirected);
    assert_eq!(renderer.thumbnails[0].window, 70);
    assert!(renderer.replace(1, ThumbnailState::Error("x".to_string())).is_empty());
}

fn screens() -> Vec<Vec<Vec<PictVisual>>> {
    vec![vec![vec![PictVisual { visual: 33, format: 44 }]]]
}

fn thumbnail_until(stage: ThumbnailStage) -> ThumbnailSetup {
    let mut setup = ThumbnailSetup::new(&screens(), &window(5, "x")).unwrap();
    let mut id = 100;
    while setup.stage != stage {
        if setup.action() == ThumbnailAction::AllocateId {
            setup.handle(ServerEvent::Allocated(id));
            id += 1;
        } else {
            setup.handle(ServerEvent::Done);
        }
    }
    setup
}

fn thumbnail_down(mut setup: ThumbnailSetup) -> (Vec<ThumbnailAction>, String) {
    let mut actions = Vec::new();
    while setup.stage != ThumbnailStage::Failed {
        actions.push(setup.action());
        setup.handle(ServerEvent::Failed(Fault::Send));
    }
    let slot = setup.slot().unwrap();
    assert_eq!((slot.window, slot.redirected), (5, false));
    match slot.state {
        ThumbnailState::Error(message) => (actions, message),
        ThumbnailState::Ready(_) => panic!("ready"),
    }
}

#[test]
fn a_thumbnail_is_set_up_step_by_step() {
    let setup = thumbnail_until(ThumbnailStage::Redirecting);
    assert_eq!(setup.action(), ThumbnailAction::Redirect { window: 5, update: 0 });
    let setup = thumbnail_until(ThumbnailStage::NamingPixmap);
    assert_eq!(setup.action(), ThumbnailAction::NamePixmap { window: 5, pixmap: 100 });
    let setup = thumbnail_until(ThumbnailStage::CreatingPicture);
    assert_eq!(
        setup.action(),
        ThumbnailAction::CreatePicture {
            picture: 101,
            pixmap: 100,
            format: 44,
            subwindow_mode: u32::from(SubwindowMode::INCLUDE_INFERIORS),
        }
    );
    assert!(setup.slot().is_none());
    let mut setup = thumbnail_until(ThumbnailStage::Filtering);
    assert_eq!(setup.action(), ThumbnailAction::SetFilter { picture: 101, filter: *b"best" });
    setup.handle(ServerEvent::Failed(Fault::Reply));
    assert_eq!(setup.action(), ThumbnailAction::Nothing);
    let slot = setup.slot().unwrap();
    assert!(slot.redirected);
    let expected = Thumbnail { pixmap: 100, picture: 101, width: 800, height: 600 };
    assert!(matches!(slot.state, ThumbnailState::Ready(thumbnail) if thumbnail == expected));
}

#[test]
fn a_failed_thumbnail_gives_everything_back() {
    let free_pixmap = ThumbnailAction::FreePixmap { pixmap: 100 };
    let free_picture = ThumbnailAction::FreePicture { picture: 101 };
    let update = u8::from(Redirect::AUTOMATIC);
    let unredirect = ThumbnailAction::Unredirect { window: 5, update };
    let mut setup = thumbnail_until(ThumbnailStage::Redirecting);
    setup.handle(ServerEvent::Failed(Fault::Reply));
    assert_eq!(
        thumbnail_down(setup),
        (vec![], "XComposite rejected redirect for window".to_string())
    );
    let mut setup = thumbnail_until(ThumbnailStage::AllocatingPixmap);
    setup.handle(ServerEvent::Failed(Fault::Send));
    assert_eq!(
        thumbnail_down(setup),
        (vec![unredirect], "failed to allocate pixmap id".to_string())
    );
    let mut setup = thumbnail_until(ThumbnailStage::NamingPixmap);
    setup.handle(ServerEvent::Failed(Fault::Reply));
    assert_eq!(
        thumbnail_down(setup),
        (
            vec![free_pixmap, unredirect],
            "XComposite could not name the window pixmap".to_string()
        )
    );
    let mut setup = thumbnail_until(ThumbnailStage::AllocatingPicture);
    setup.handle(ServerEvent::Failed(Fault::Send));
    assert_eq!(thumbnail_down(setup).1, "failed to allocate picture id");
    let mut setup = thumbnail_until(ThumbnailStage::CreatingPicture);
    setup.handle(ServerEvent::Failed(Fault::Reply));
    assert_eq!(
        thumbnail_down(setup),
        (
            vec![free_picture, free_pixmap, unredirect],
            "XRender rejected source picture for thumbnail".to_string()
        )
    );
}

#[test]
fn thumbnail_failures_have_words() {
    let mut odd = window(5, "x");
    odd.geometry.visual = 0x2b;
    let error = ThumbnailSetup::new(&screens(), &odd).unwrap_err();
    assert_eq!(error, ThumbnailError::NoFormat { visual: 0x2b });
    let slot = failed_slot(9, error);
    assert!(matches!(
        slot.state,
        ThumbnailState::Error(text) if text == "no XRender pict format for visual 0x0000002b"
    ));
    assert_eq!(
        ThumbnailError::Redirect(Fault::Send).message(),
        "failed to request XComposite redirect"
    );
    assert_eq!(
        ThumbnailError::NamePixmap(Fault::Send).message(),
        "failed to request named window pixmap"
    );
    assert_eq!(
        ThumbnailError::CreatePicture(Fault::Send).message(),
        "failed to create source picture for thumbnail"
    );
}

fn root(visual: u32) -> RootWindow {
    RootWindow { window: 500, visual, depth: 24, width: 1920, height: 1080 }
}

fn overlay_until(stage: OverlayStage) -> OverlaySetup {
    let mut setup = OverlaySetup::new(&screens(), root(33)).unwrap();
    let mut id = 1;
    while setup.stage != stage {
        if setup.stage == OverlayStage::Prepared {
            setup.show();
            continue;
        }
        match setup.action() {
            OverlayAction::AllocateId => {
                setup.handle(OverlayEvent::Server(ServerEvent::Allocated(id)));
                id += 1;
            }
            OverlayAction::GrabKeyboard { .. } => {
                setup.handle(OverlayEvent::Grabbed { status: 0 });
            }
            _ => setup.handle(OverlayEvent::Server(ServerEvent::Done)),
        }
    }
    setup
}

#[test]
fn the_overlay_is_set_up_step_by_step() {
    let setup = overlay_until(OverlayStage::CreatingWindow);
    assert_eq!(
        setup.action(),
        OverlayAction::CreateWindow {
            window: 1,
            parent: 500,
            x: 0,
            y: 0,
            width: 1920,
            height: 1080,
            border: 0,
            depth: 24,
            visual: 33,
            background_color: 0x101418,
            border_color: 0x101418,
            override_redirect: true,
            events: u32::from(
                EventMask::EXPOSURE
                    | EventMask::KEY_PRESS
                    | EventMask::BUTTON_PRESS
                    | EventMask::POINTER_MOTION
                    | EventMask::STRUCTURE_NOTIFY
            ),
        }
    );
    let setup = overlay_until(OverlayStage::SettingClass);
    let class = *b"tobyscope-x11\0tobyscope-x11\0";
    assert_eq!(setup.action(), OverlayAction::SetClass { window: 1, class });
    let setup = overlay_until(OverlayStage::SettingName);
    assert_eq!(setup.action(), OverlayAction::SetName { window: 1, name: *b"tobyscope-x11" });
    let setup = overlay_until(OverlayStage::OpeningFont);
    assert_eq!(setup.action(), OverlayAction::OpenFont { font: 3, font_name: *b"fixed" });
    for (stage, action) in [
        (OverlayStage::Mapping, OverlayAction::MapWindow { window: 1 }),
        (OverlayStage::Raising, OverlayAction::Raise { window: 1 }),
        (OverlayStage::Grabbing, OverlayAction::GrabKeyboard { window: 1 }),
        (OverlayStage::Flushing, OverlayAction::Flush),
    ] {
        assert_eq!(overlay_until(stage).action(), action);
    }
    let setup = overlay_until(OverlayStage::CreatingPicture);
    assert_eq!(
        setup.action(),
        OverlayAction::CreatePicture { picture: 2, window: 1, format: 44 }
    );
    let setup = overlay_until(OverlayStage::CreatingGc(Shade::Text));
    assert_eq!(
        setup.action(),
        OverlayAction::CreateGc {
            gc: 9,
            window: 1,
            foreground: 0xe8edf2,
            background: 0x101418,
            font: 3,
            graphics_exposures: false
        }
    );
    let mut setup = overlay_until(OverlayStage::Prepared);
    assert_eq!(setup.action(), OverlayAction::Nothing);
    setup.handle(OverlayEvent::Server(ServerEvent::Done));
    assert_eq!(setup.stage, OverlayStage::Prepared);
    setup.hidden();
    assert_eq!(setup.stage, OverlayStage::Prepared);
    let mut setup = overlay_until(OverlayStage::Shown);
    setup.show();
    assert_eq!(setup.stage, OverlayStage::Shown);
    setup.hidden();
    assert_eq!(setup.stage, OverlayStage::Prepared);
    let overlay = setup.overlay;
    assert_eq!((overlay.window, overlay.picture, overlay.gcs.font), (1, 2, 3));
    assert_eq!((overlay.gcs.background, overlay.gcs.error), (4, 10));
    assert_eq!((overlay.width, overlay.height), (1920, 1080));
}

#[test]
fn a_refused_grab_is_told() {
    let mut setup = overlay_until(OverlayStage::Grabbing);
    setup.handle(OverlayEvent::Grabbed { status: 1 });
    assert_eq!(setup.stage, OverlayStage::Failed(OverlayError::GrabRefused { status: 1 }));
    let texts: Vec<String> = [0u8, 1, 2, 3, 4, 9]
        .iter()
        .map(|status| OverlayError::GrabRefused { status: *status }.message())
        .collect();
    let prefix = "could not grab keyboard for overview overlay: ";
    for (text, name) in texts.iter().zip([
        "SUCCESS",
        "ALREADY_GRABBED",
        "INVALID_TIME",
        "NOT_VIEWABLE",
        "FROZEN",
        "9",
    ]) {
        assert_eq!(*text, format!("{prefix}{name}"));
    }
}

#[test]
fn overlay_failures_have_words() {
    assert_eq!(
        OverlaySetup::new(&screens(), root(0x99)).unwrap_err().message(),
        "no XRender pict format for root visual 0x00000099"
    );
    let stages = [
        (OverlayStage::AllocatingWindow, "failed to allocate overlay window id", "failed to allocate overlay window id"),
        (OverlayStage::CreatingWindow, "failed to create overlay window", "X11 rejected overlay window creation"),
        (OverlayStage::SettingClass, "failed to set overlay WM_CLASS", "X11 rejected overlay WM_CLASS"),
        (OverlayStage::SettingName, "failed to set overlay WM_NAME", "X11 rejected overlay WM_NAME"),
        (OverlayStage::AllocatingPicture, "failed to allocate overlay picture", "failed to allocate overlay picture"),
        (OverlayStage::CreatingPicture, "failed to create overlay render picture", "XRender rejected overlay picture"),
        (OverlayStage::AllocatingFont, "failed to allocate font id", "failed to allocate font id"),
        (OverlayStage::OpeningFont, "failed to open X11 fixed font", "X11 rejected fixed font"),
        (OverlayStage::AllocatingGc(Shade::Cell), "failed to allocate GC id", "failed to allocate GC id"),
        (OverlayStage::CreatingGc(Shade::Error), "failed to create graphics context", "X11 rejected graphics context"),
        (OverlayStage::Mapping, "failed to map overlay", "X11 rejected overlay map"),
        (OverlayStage::Raising, "failed to raise overlay", "failed to raise overlay"),
        (OverlayStage::Grabbing, "failed to request keyboard grab", "failed to receive keyboard grab reply"),
        (OverlayStage::Flushing, "failed to flush overlay setup", "failed to flush overlay setup"),
    ];
    for (stage, sent, refused) in stages {
        for (fault, text) in [(Fault::Send, sent), (Fault::Reply, refused)] {
            let mut setup = overlay_until(stage);
            setup.handle(OverlayEvent::Server(ServerEvent::Failed(fault)));
            match setup.stage {
                OverlayStage::Failed(error) => assert_eq!(error.message(), text),
                other => panic!("{other:?}"),
            }
        }
    }
}

#[test]
fn shades_have_their_colors() {
    assert_eq!(Shade::Background.colors(), (0x101418, 0x101418));
    assert_eq!(Shade::CellHover.colors(), (0x2b3642, 0x2b3642));
    assert_eq!(Shade::Text.colors(), (0xe8edf2, 0x101418));
    assert_eq!(Shade::Error.next(), None);
    let gcs = overlay().gcs;
    assert_eq!((gcs.get(Shade::Cell), gcs.get(Shade::Selected)), (4, 7));
}
