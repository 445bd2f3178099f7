use tobyscope_x11::capture::{
    can_make_picture, picture, scale_for_cache, sweep_origin, Capture, CaptureAction, CaptureError,
    CaptureEvent, CaptureScope, CaptureStage, CaptureSweep, SweepStatus, SweepStep, MAX_CACHE_EDGE,
};
use tobyscope_x11::pixels::{DisplayFormats, PixelError, PixmapFormat, RgbaImage, VisualType};
use tobyscope_x11::windows::{WindowGeometry, WindowInfo};
use tobyscope_x11::x11::{Extent, Fault, WindowAttributes};
use x11rb::protocol::composite::Redirect;

fn geometry(width: u16, height: u16) -> WindowGeometry {
    WindowGeometry { x: 0, y: 0, width, height, depth: 24, visual: 33 }
}

fn window(id: u32, workspace: &str) -> WindowInfo {
    WindowInfo {
        id,
        name: "terminal".to_string(),
        instance: None,
        class: None,
        workspace: workspace.to_string(),
        workspace_num: None,
        i3_con_id: Some(id as i64),
        tree_order: 0,
        urgent: false,
        focused: false,
        geometry: geometry(10, 10),
    }
}

fn attributes(viewable: bool) -> WindowAttributes {
    WindowAttributes { override_redirect: false, viewable, input_output: true, visual: 77 }
}

fn extent(width: u16, height: u16) -> Extent {
    Extent { x: 3, y: 4, width, height, depth: 32 }
}

fn image(width: u32, height: u32) -> RgbaImage {
    let mut pixels = Vec::new();
    for y in 0..height {
        for x in 0..width {
            pixels.extend([(x % 251) as u8, (y % 241) as u8, ((x + y) % 239) as u8, 255]);
        }
    }
    RgbaImage { width, height, pixels }
}

fn resized(source: &RgbaImage, width: u32, height: u32) -> Vec<u8> {
    let native =
        image::RgbaImage::from_raw(source.width, source.height, source.pixels.clone()).unwrap();
    image::imageops::resize(&native, width, height, image::imageops::FilterType::Triangle)
        .into_raw()
}

#[test]
fn small_images_are_kept_as_they_are() {
    let source = image(960, 2);
    let kept = scale_for_cache(&source, MAX_CACHE_EDGE);
    assert_eq!((kept.width, kept.height), (960, 2));
    assert_eq!(kept.pixels, source.pixels);
}

#[test]
fn large_images_are_brought_down() {
    let source = image(1920, 1080);
    let small = scale_for_cache(&source, MAX_CACHE_EDGE);
    assert_eq!((small.width, small.height), (960, 540));
    assert_eq!(small.pixels, resized(&source, 960, 540));
    assert_ne!(small.pixels.len(), source.pixels.len());
}

#[test]
fn thin_images_keep_a_pixel() {
    let source = image(4000, 1);
    let small = scale_for_cache(&source, 100);
    assert_eq!((small.width, small.height), (100, 1));
    assert_eq!(small.pixels, resized(&source, 100, 1));
    let empty = RgbaImage { width: 2000, height: 0, pixels: vec![] };
    let small = scale_for_cache(&empty, 960);
    assert_eq!((small.width, small.height), (960, 1));
    assert_eq!(small.pixels, vec![0; 960 * 4]);
}

#[test]
fn scaled_sizes_match_native_floats() {
    for (width, height) in [(961u32, 3u32), (1000, 999), (1366, 768), (7, 5000), (65_535, 2)] {
        let small = scale_for_cache(&image(width, height), 960);
        let scale = 960f32 / width.max(height) as f32;
        let expected_width = ((width as f32 * scale).round() as u32).max(1);
        let expected_height = ((height as f32 * scale).round() as u32).max(1);
        assert_eq!((small.width, small.height), (expected_width, expected_height));
        assert!(small.width <= 960 && small.height <= 960);
    }
}

#[test]
fn a_picture_uses_the_visual_of_its_image() {
    let setup = DisplayFormats {
        pixmap_formats: vec![PixmapFormat { depth: 24, bits_per_pixel: 32, scanline_pad: 32 }],
        screens: vec![vec![vec![
            VisualType { visual_id: 33, red_mask: 0xff0000, green_mask: 0xff00, blue_mask: 0xff },
            VisualType { visual_id: 44, red_mask: 0xff, green_mask: 0xff00, blue_mask: 0xff0000 },
        ]]],
        lsb_first: true,
    };
    let data = [1u8, 2, 3, 0];
    assert!(can_make_picture(&setup, geometry(1, 1), 44, 24, &data));
    let odd = DisplayFormats {
        pixmap_formats: vec![PixmapFormat { depth: 24, bits_per_pixel: 4, scanline_pad: 8 }],
        screens: vec![],
        lsb_first: true,
    };
    assert!(can_make_picture(&odd, geometry(2, 1), 44, 24, &data));
    let own = picture(&setup, geometry(1, 1), 44, 24, &data, 960).unwrap();
    assert_eq!(own.pixels, vec![1, 2, 3, 255]);
    let fallback = picture(&setup, geometry(1, 1), 0, 24, &data, 960).unwrap();
    assert_eq!(fallback.pixels, vec![3, 2, 1, 255]);
    assert_eq!(
        picture(&setup, geometry(2, 1), 44, 24, &data, 960).err(),
        Some(PixelError::TooShort { got: 4, need: 8 })
    );
}

#[test]
fn a_capture_takes_its_steps_and_gives_everything_back() {
    let mut capture = Capture::new(70, geometry(1, 1));
    assert_eq!(capture.action(), CaptureAction::ReadAttributes { window: 70 });
    capture.handle(CaptureEvent::Attributes { attributes: attributes(false), elapsed_ms: 1199 });
    assert_eq!(capture.action(), CaptureAction::Sleep { milliseconds: 35 });
    capture.handle(CaptureEvent::Done);
    assert_eq!(capture.action(), CaptureAction::ReadAttributes { window: 70 });
    capture.handle(CaptureEvent::Attributes { attributes: attributes(true), elapsed_ms: 9999 });
    assert_eq!(capture.action(), CaptureAction::ReadAttributes { window: 70 });
    capture.handle(CaptureEvent::Attributes { attributes: attributes(true), elapsed_ms: 0 });
    assert_eq!(capture.action(), CaptureAction::ReadGeometry { window: 70 });
    capture.handle(CaptureEvent::Geometry(extent(640, 480)));
    assert_eq!((capture.geometry.width, capture.geometry.visual), (640, 77));
    let update = u8::from(Redirect::AUTOMATIC);
    assert_eq!(capture.action(), CaptureAction::Redirect { window: 70, update });
    capture.handle(CaptureEvent::Done);
    assert_eq!(capture.action(), CaptureAction::AllocatePixmap);
    capture.handle(CaptureEvent::Allocated(500));
    assert_eq!(capture.action(), CaptureAction::NamePixmap { window: 70, pixmap: 500 });
    capture.handle(CaptureEvent::Done);
    assert_eq!(
        capture.action(),
        CaptureAction::ReadImage {
            pixmap: 500,
            x: 0,
            y: 0,
            width: 640,
            height: 480,
            plane_mask: u32::MAX,
        }
    );
    capture.handle(CaptureEvent::Done);
    assert_eq!(capture.action(), CaptureAction::FreePixmap { pixmap: 500 });
    capture.handle(CaptureEvent::Failed(Fault::Send));
    assert_eq!(capture.action(), CaptureAction::Unredirect { window: 70, update });
    capture.handle(CaptureEvent::Done);
    assert_eq!(capture.action(), CaptureAction::Nothing);
    assert_eq!(capture.stage, CaptureStage::Done);
    assert_eq!(capture.error, None);
}

#[test]
fn an_event_out_of_turn_changes_nothing() {
    let mut capture = Capture::new(70, geometry(1, 1));
    capture.handle(CaptureEvent::Allocated(3));
    assert_eq!(capture.stage, CaptureStage::Looking);
    assert_eq!(capture.pixmap, None);
}

fn capture_until(stage: CaptureStage) -> Capture {
    let mut capture = Capture::new(70, geometry(1, 1));
    while capture.stage != stage {
        let event = match capture.action() {
            CaptureAction::ReadAttributes { .. } => {
                CaptureEvent::Attributes { attributes: attributes(true), elapsed_ms: 0 }
            }
            CaptureAction::ReadGeometry { .. } => CaptureEvent::Geometry(extent(8, 8)),
            CaptureAction::AllocatePixmap => CaptureEvent::Allocated(9),
            _ => CaptureEvent::Done,
        };
        capture.handle(event);
    }
    capture
}

fn run_down(mut capture: Capture) -> (Vec<CaptureAction>, Option<CaptureError>) {
    let mut actions = Vec::new();
    while capture.stage != CaptureStage::Done {
        actions.push(capture.action());
        capture.handle(CaptureEvent::Done);
    }
    (actions, capture.error)
}

#[test]
fn failures_release_what_is_held() {
    let free = CaptureAction::FreePixmap { pixmap: 9 };
    let unredirect = CaptureAction::Unredirect { window: 70, update: 0 };
    let mut capture = capture_until(CaptureStage::Redirecting);
    capture.handle(CaptureEvent::Failed(Fault::Reply));
    assert_eq!(run_down(capture), (vec![], Some(CaptureError::Redirect(Fault::Reply))));
    let mut capture = capture_until(CaptureStage::Allocating);
    capture.handle(CaptureEvent::Failed(Fault::Send));
    assert_eq!(
        run_down(capture),
        (vec![unredirect], Some(CaptureError::AllocatePixmap))
    );
    let mut capture = capture_until(CaptureStage::Naming);
    capture.handle(CaptureEvent::Failed(Fault::Send));
    assert_eq!(
        run_down(capture),
        (vec![free, unredirect], Some(CaptureError::NamePixmap(Fault::Send)))
    );
    let mut capture = capture_until(CaptureStage::Reading);
    capture.handle(CaptureEvent::NotDecoded(PixelError::StrideOverflow));
    assert_eq!(
        run_down(capture),
        (
            vec![free, unredirect],
            Some(CaptureError::Pixels(PixelError::StrideOverflow))
        )
    );
    let mut capture = capture_until(CaptureStage::Reading);
    capture.handle(CaptureEvent::Failed(Fault::Reply));
    assert_eq!(run_down(capture).1, Some(CaptureError::ReadImage(Fault::Reply)));
}

#[test]
fn windows_that_cannot_be_captured_are_told() {
    let mut capture = capture_until(CaptureStage::Looking);
    capture.handle(CaptureEvent::Attributes { attributes: attributes(false), elapsed_ms: 1200 });
    assert_eq!(capture.error, Some(CaptureError::NotViewable));
    assert_eq!(capture.stage, CaptureStage::Done);
    let mut capture = capture_until(CaptureStage::Looking);
    capture.handle(CaptureEvent::Failed(Fault::Send));
    assert_eq!(capture.error, Some(CaptureError::Attributes(Fault::Send)));
    let mut capture = capture_until(CaptureStage::Measuring { visual: 77 });
    capture.handle(CaptureEvent::Geometry(extent(0, 5)));
    assert_eq!(capture.error, Some(CaptureError::EmptyGeometry));
    let mut capture = capture_until(CaptureStage::Measuring { visual: 77 });
    capture.handle(CaptureEvent::Failed(Fault::Reply));
    assert_eq!(capture.error, Some(CaptureError::Geometry(Fault::Reply)));
}

#[test]
fn capture_failures_have_words() {
    let texts = [
        (CaptureError::Attributes(Fault::Send), "failed to request window attributes"),
        (CaptureError::Attributes(Fault::Reply), "failed to read window attributes"),
        (
            CaptureError::NotViewable,
            "window did not become viewable after workspace switch",
        ),
        (CaptureError::Geometry(Fault::Send), "failed to request window geometry"),
        (CaptureError::Geometry(Fault::Reply), "failed to read window geometry"),
        (CaptureError::EmptyGeometry, "window has empty geometry"),
        (CaptureError::Redirect(Fault::Send), "failed to request XComposite redirect"),
        (CaptureError::Redirect(Fault::Reply), "XComposite rejected redirect for window"),
        (CaptureError::AllocatePixmap, "failed to allocate capture pixmap id"),
        (CaptureError::NamePixmap(Fault::Send), "failed to request named window pixmap"),
        (CaptureError::NamePixmap(Fault::Reply), "XComposite could not name window pixmap"),
        (CaptureError::ReadImage(Fault::Send), "failed to request XImage"),
        (CaptureError::ReadImage(Fault::Reply), "failed to receive XImage"),
        (CaptureError::Pixels(PixelError::StrideOverflow), "XImage stride overflow"),
    ];
    for (error, text) in texts {
        assert_eq!(error.message(), text);
    }
}

fn sweep(current: Option<&str>, scope: CaptureScope) -> CaptureSweep {
    let windows = [window(1, "1"), window(2, "2"), window(3, "2"), window(4, "1")];
    let stale = vec![true, true, false, true];
    CaptureSweep::new(&windows, &stale, current.map(str::to_string), scope, false)
}

fn next(sweep: &mut CaptureSweep) -> (Option<String>, Option<usize>) {
    match sweep.step(4) {
        SweepStep::Capture { switch, index } => {
            if let Some(workspace) = &switch {
                sweep.switched(workspace.clone());
            }
            (switch, index)
        }
        SweepStep::Finish { .. } => panic!("finished"),
    }
}

#[test]
fn a_sweep_visits_the_stale_windows_and_comes_back() {
    let mut all = sweep(Some("1"), CaptureScope::AllWorkspaces);
    assert_eq!(all.tasks.len(), 3);
    assert!(!all.is_empty());
    assert_eq!(next(&mut all), (Some("1".to_string()), Some(0)));
    assert_eq!(next(&mut all), (Some("2".to_string()), Some(1)));
    assert_eq!(next(&mut all), (Some("1".to_string()), Some(3)));
    assert!(all.is_empty());
    let step = all.step(4);
    assert_eq!(step.status(), SweepStatus::Finished);
    assert!(matches!(step, SweepStep::Finish { restore: None }));
}

#[test]
fn a_sweep_that_ends_elsewhere_switches_back_once() {
    let windows = [window(2, "2")];
    let mut away = CaptureSweep::new(
        &windows,
        &vec![true],
        Some("1".to_string()),
        CaptureScope::AllWorkspaces,
        true,
    );
    let step = away.step(1);
    assert_eq!(step.status(), SweepStatus::Updated);
    away.switched("2".to_string());
    assert!(matches!(away.step(1), SweepStep::Finish { restore: Some(name) } if name == "1"));
    assert!(matches!(away.step(1), SweepStep::Finish { restore: None }));
    assert_eq!(away.cancel(), None);
}

#[test]
fn cancelling_asks_for_the_way_back_once() {
    let mut all = sweep(Some("1"), CaptureScope::AllWorkspaces);
    next(&mut all);
    next(&mut all);
    assert_eq!(all.cancel(), Some("1".to_string()));
    assert_eq!(all.cancel(), None);
}

#[test]
fn a_sweep_without_a_home_never_switches() {
    let mut lost = sweep(None, CaptureScope::AllWorkspaces);
    assert_eq!(next(&mut lost), (None, Some(0)));
    assert_eq!(next(&mut lost), (None, Some(1)));
    assert_eq!(lost.cancel(), None);
}

#[test]
fn a_background_sweep_stays_on_its_workspace() {
    let mut here = sweep(Some("1"), CaptureScope::CurrentWorkspaceOnly);
    assert_eq!(next(&mut here), (Some("1".to_string()), Some(0)));
    assert_eq!(next(&mut here), (None, Some(3)));
    assert!(here.is_empty());
    assert!(sweep(None, CaptureScope::CurrentWorkspaceOnly).is_empty());
}

#[test]
fn windows_without_a_workspace_are_captured_where_they_are() {
    let listed = [window(1, ""), window(2, "")];
    let stale = vec![true, true];
    let origin = sweep_origin(&listed, Some("1".to_string()));
    assert_eq!(origin, None);
    for scope in [CaptureScope::CurrentWorkspaceOnly, CaptureScope::AllWorkspaces] {
        let mut all = CaptureSweep::new(&listed, &stale, None, scope, false);
        assert_eq!(next(&mut all), (None, Some(0)));
        assert_eq!(next(&mut all), (None, Some(1)));
        assert!(all.is_empty());
    }
    let mixed = [window(1, ""), window(2, "3")];
    assert_eq!(sweep_origin(&mixed, Some("1".to_string())), Some("1".to_string()));
    let here = Some("3".to_string());
    let scope = CaptureScope::CurrentWorkspaceOnly;
    let mut sweep = CaptureSweep::new(&mixed, &stale, here.clone(), scope, false);
    assert_eq!(next(&mut sweep), (here, Some(1)));
    assert!(sweep.is_empty());
}

#[test]
fn windows_that_are_gone_are_passed_over() {
    let mut all = sweep(None, CaptureScope::AllWorkspaces);
    assert!(matches!(all.step(0), SweepStep::Capture { switch: None, index: None }));
}
