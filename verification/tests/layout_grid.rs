use tobyscope_x11::layout::{
    can_compute, choose_grid, compute, fit_aspect, hit_test, Layout, Rect,
};
use tobyscope_x11::single::Single;
use tobyscope_x11::windows::{WindowGeometry, WindowInfo};

fn window(id: u32, width: u16, height: u16) -> WindowInfo {
    WindowInfo {
        id,
        name: format!("window {id}"),
        instance: None,
        class: None,
        workspace: "1".to_string(),
        workspace_num: Some(1),
        i3_con_id: None,
        tree_order: 0,
        urgent: false,
        focused: false,
        geometry: WindowGeometry { x: 0, y: 0, width, height, depth: 24, visual: 33 },
    }
}

fn windows(count: u32) -> Vec<WindowInfo> {
    (0..count).map(|id| window(id, 1280, 720)).collect()
}

fn sides(rect: Rect) -> (i16, i16, u16, u16) {
    (rect.x, rect.y, rect.width, rect.height)
}

fn native_grid(count: usize, width: u16, height: u16) -> (usize, usize) {
    if count <= 1 {
        return (1, 1);
    }
    if count <= 3 {
        return (count, 1);
    }
    let aspect = width as f32 / height.max(1) as f32;
    let columns = ((count as f32 * aspect).sqrt().ceil() as usize).max(1).min(count);
    (columns, count.div_ceil(columns).max(1))
}

fn native_fit(area: Rect, source_width: u16, source_height: u16) -> (i16, i16, u16, u16) {
    if area.width == 0 || area.height == 0 {
        return sides(area);
    }
    let area_ratio = area.width as f32 / area.height as f32;
    let source_ratio = source_width as f32 / source_height as f32;
    let (width, height) = if source_ratio > area_ratio {
        let height = ((area.width as f32 / source_ratio).round() as u16).max(1).min(area.height);
        (area.width, height)
    } else {
        let width = ((area.height as f32 * source_ratio).round() as u16).max(1).min(area.width);
        (width, area.height)
    };
    (
        area.x + ((area.width - width) / 2) as i16,
        area.y + ((area.height - height) / 2) as i16,
        width,
        height,
    )
}

#[test]
fn grid_matches_native_floats() {
    for count in [0usize, 1, 2, 3, 4, 5, 7, 9, 12, 16, 17, 30, 64, 100, 255, 1000, 65_536] {
        for (width, height) in
            [(1920u16, 1080u16), (1080, 1920), (2560, 1440), (3840, 1080), (1, 1), (7, 0), (0, 9)]
        {
            assert_eq!(choose_grid(count, width, height), native_grid(count, width, height));
        }
    }
}

#[test]
fn grid_matches_native_floats_for_huge_counts() {
    for count in [16_777_217usize, 33_554_435, 4_294_967_295, 123_456_789_012_345] {
        for (width, height) in [(1920u16, 1080u16), (65_535, 1), (1, 65_535), (3, 7)] {
            assert_eq!(choose_grid(count, width, height), native_grid(count, width, height));
        }
    }
}

#[test]
fn fit_matches_native_floats() {
    let mut seed: u64 = 0x1234_5678;
    for _ in 0..20_000 {
        seed = seed.wrapping_mul(6_364_136_223_846_793_005).wrapping_add(1_442_695_040_888_963_407);
        let area = Rect {
            x: ((seed >> 8) % 2000) as i16,
            y: ((seed >> 20) % 2000) as i16,
            width: ((seed >> 32) % 4000) as u16,
            height: ((seed >> 44) % 4000) as u16,
        };
        let source_width = ((seed >> 16) as u16).max(1);
        let source_height = ((seed >> 48) as u16).max(1);
        assert_eq!(
            sides(fit_aspect(area, source_width, source_height)),
            native_fit(area, source_width, source_height)
        );
    }
}

#[test]
fn fit_keeps_the_proportions() {
    let area = Rect { x: 10, y: 20, width: 400, height: 400 };
    assert_eq!(sides(fit_aspect(area, 1600, 900)), (10, 107, 400, 225));
    assert_eq!(sides(fit_aspect(area, 900, 1600)), (97, 20, 225, 400));
    assert_eq!(sides(fit_aspect(area, 5, 5)), (10, 20, 400, 400));
    let none = Rect { x: 1, y: 2, width: 0, height: 9 };
    assert_eq!(sides(fit_aspect(none, 5, 5)), (1, 2, 0, 9));
}

#[test]
fn fitted_sides_are_less_than_a_pixel_off() {
    for (width, height) in [(400u16, 400u16), (1, 1), (65_535, 3), (1732, 974), (7, 65_535)] {
        for (across, down) in [(1600u16, 900u16), (65_535, 1), (1, 65_535), (65_535, 65_534)] {
            let fit = fit_aspect(Rect { x: -100, y: -100, width, height }, across, down);
            let (wide, high) = (i64::from(fit.width), i64::from(fit.height));
            let (across, down) = (i64::from(across), i64::from(down));
            let off = (wide * down - high * across).abs();
            assert!(fit.width == width && off < across || fit.height == height && off < down);
        }
    }
}

#[test]
fn columns_follow_the_screen_and_the_windows() {
    for count in [1usize, 3, 4, 5, 17, 1000] {
        for height in [0u16, 1, 768, 1080, 65_535] {
            let mut last = choose_grid(count, 0, height);
            for width in (1u16..=65_000).step_by(97) {
                let shape = choose_grid(count, width, height);
                assert!(shape.0 >= last.0 && shape.1 <= last.1);
                last = shape;
            }
        }
    }
    for width in [1u16, 1080, 1920] {
        let mut last = choose_grid(17, width, 0);
        for height in (1u16..=65_000).step_by(97) {
            let shape = choose_grid(17, width, height);
            assert!(shape.0 <= last.0 && shape.1 >= last.1);
            last = shape;
        }
        let mut columns = choose_grid(4, width, 1080).0;
        for count in 5..500 {
            let more = choose_grid(count, width, 1080).0;
            assert!(more >= columns);
            columns = more;
        }
    }
    assert_eq!(choose_grid(12, 1080, 1920), (3, 4));
    assert_eq!(choose_grid(12, 1920, 1080), (5, 3));
}

#[test]
fn one_window_takes_the_middle_of_the_screen() {
    let list = windows(1);
    assert!(can_compute(1920, 1080, &list));
    let layout = compute(1920, 1080, &list);
    assert_eq!(layout.columns, 1);
    assert_eq!(sides(layout.items[0].cell), (24, 24, 1872, 1032));
    assert_eq!(sides(layout.items[0].preview), (94, 36, 1732, 974));
}

#[test]
fn cells_of_five_windows_are_disjoint_and_on_screen() {
    let list = windows(5);
    let layout = compute(1920, 1080, &list);
    assert_eq!(layout.columns, 3);
    assert_eq!(layout.items.len(), 5);
    assert_eq!(sides(layout.items[0].cell), (24, 24, 612, 507));
    assert_eq!(sides(layout.items[4].cell), (654, 549, 612, 507));
    for (i, a) in layout.items.iter().enumerate() {
        assert!(a.cell.x >= 0 && a.cell.x as i32 + a.cell.width as i32 <= 1920);
        assert!(a.cell.y >= 0 && a.cell.y as i32 + a.cell.height as i32 <= 1080);
        assert!(a.preview.x >= a.cell.x && a.preview.y >= a.cell.y);
        for b in &layout.items[i + 1..] {
            let apart_x = (a.cell.x as i32 - b.cell.x as i32).abs() >= a.cell.width as i32;
            let apart_y = (a.cell.y as i32 - b.cell.y as i32).abs() >= a.cell.height as i32;
            assert!(apart_x || apart_y);
        }
    }
}

#[test]
fn no_window_still_has_a_column() {
    let layout = compute(800, 600, &[]);
    assert_eq!(layout.columns, 1);
    assert!(layout.items.is_empty());
}

#[test]
fn a_layout_past_the_coordinates_is_refused() {
    assert!(!can_compute(65_535, 1000, &windows(40)));
    assert!(can_compute(1920, 1080, &windows(40)));
}

#[test]
fn rectangles_contain_their_upper_left_edges_only() {
    let rect = Rect { x: 10, y: 20, width: 30, height: 40 };
    assert!(rect.contains(10, 20));
    assert!(rect.contains(39, 59));
    assert!(!rect.contains(40, 59));
    assert!(!rect.contains(39, 60));
    assert!(!rect.contains(9, 20));
    let far = Rect { x: 32_000, y: 0, width: 2000, height: 1 };
    assert!(far.contains(32_766, 0));
    assert!(!far.contains(32_767, 0));
    let wide = Rect { x: 0, y: 0, width: 40_000, height: 1 };
    assert!(!wide.contains(0, 0));
    let plain: Rect = Default::default();
    assert_eq!(sides(plain), (0, 0, 0, 0));
}

#[test]
fn the_first_hit_wins() {
    let list = windows(5);
    let layout = compute(1920, 1080, &list);
    assert_eq!(hit_test(&layout, 30, 30), Some(0));
    assert_eq!(hit_test(&layout, 700, 600), Some(4));
    assert_eq!(hit_test(&layout, 640, 30), None);
    assert_eq!(hit_test(&layout, 0, 0), None);
    let double = Layout { columns: 1, items: vec![layout.items[2], layout.items[2]] };
    let cell = layout.items[2].cell;
    assert_eq!(hit_test(&double, cell.x, cell.y), Some(0));
}

#[test]
fn copies_of_a_layout_are_equal() {
    let layout = compute(1920, 1080, &windows(3));
    let copy = layout.clone();
    assert_eq!(copy.columns, layout.columns);
    assert_eq!(copy.items.len(), 3);
    assert_eq!(sides(copy.items[1].cell), sides(layout.items[1].cell));
}

#[test]
fn single_precision_rounds_as_the_processor_does() {
    for number in [1u64, 3, 16_777_217, 16_777_219, 33_554_434, 999_999_999_999] {
        let wide = Single::from_int(number);
        assert_eq!(wide.round(), (number as f32).round() as u128);
    }
    for (a, b) in [(1u64, 3u64), (2, 3), (960, 1919), (65_535, 7), (10, 4), (5, 2)] {
        let quotient = Single::from_int(a).divide(Single::from_int(b));
        let native = a as f32 / b as f32;
        assert_eq!(quotient.round(), native.round() as u128);
        assert_eq!(quotient.ceil(), native.ceil() as u128);
        let scaled = quotient.multiply(Single::from_int(1_000_003));
        assert_eq!(scaled.round(), (native * 1_000_003f32).round() as u128);
        assert_eq!(scaled.sqrt().ceil(), (native * 1_000_003f32).sqrt().ceil() as u128);
    }
    assert!(Single::from_int(2).greater(Single::from_int(1)));
    assert!(!Single::from_int(1).greater(Single::from_int(1)));
    assert!(Single::from_int(1).greater(Single::from_int(0)));
    assert!(!Single::from_int(0).greater(Single::from_int(0)));
}
