//! The adaptive grid: where each window's cell and preview stand on the screen.

use vstd::prelude::*;

use crate::single;
use crate::single::Single;
use crate::windows::WindowInfo;

verus! {

/// A rectangle on the screen.
#[derive(Debug, Clone, Copy)]
pub struct Rect {
    pub x: i16,
    pub y: i16,
    pub width: u16,
    pub height: u16,
}

impl Default for Rect {
    fn default() -> (rect: Self)
        ensures
            rect == (Rect { x: 0, y: 0, width: 0, height: 0 }),
    {
        Rect { x: 0, y: 0, width: 0, height: 0 }
    }
}

/// An unsigned 16-bit number read as a signed one.
pub open spec fn wrapped(number: int) -> int {
    if number < 0x8000 {
        number
    } else {
        number - 0x1_0000
    }
}

/// The nearest number that a signed 16-bit number can hold.
pub open spec fn saturated(number: int) -> int {
    if number < -0x8000 {
        -0x8000
    } else if number > 0x7fff {
        0x7fff
    } else {
        number
    }
}

/// Whether a signed 16-bit number can hold `number`.
pub open spec fn holds(number: int) -> bool {
    -0x8000 <= number <= 0x7fff
}

/// Reads an unsigned 16-bit number as a signed one.
pub fn wrap(number: u16) -> (result: i16)
    ensures
        result == wrapped(number as int),
{
    let result: i16 = number as i16;
    assert(result as int == if number < 0x8000 {
        number as int
    } else {
        number as int - 0x1_0000
    }) by (bit_vector)
        requires
            result == number as i16,
    ;
    result
}

/// The signed 16-bit number nearest to `number`.
pub fn saturate(number: i32) -> (result: i16)
    ensures
        result == saturated(number as int),
{
    if number < -0x8000 {
        -0x8000
    } else if number > 0x7fff {
        0x7fff
    } else {
        number as i16
    }
}

impl Rect {
    /// The point lies in the rectangle: at or past its left and top edges and before its right
    /// and bottom ones, which stop at the largest coordinate.
    pub open spec fn covers(self, x: int, y: int) -> bool {
        &&& self.x <= x < saturated(self.x + wrapped(self.width as int))
        &&& self.y <= y < saturated(self.y + wrapped(self.height as int))
    }

    /// Whether the point lies in the rectangle.
    pub fn contains(self, x: i16, y: i16) -> (inside: bool)
        ensures
            inside == self.covers(x as int, y as int),
    {
        let right: i16 = saturate(self.x as i32 + wrap(self.width) as i32);
        let bottom: i16 = saturate(self.y as i32 + wrap(self.height) as i32);
        x >= self.x && y >= self.y && x < right && y < bottom
    }
}

/// The cell of one window, and the area inside it where the thumbnail is drawn.
#[derive(Debug, Clone, Copy)]
pub struct LayoutItem {
    pub cell: Rect,
    pub preview: Rect,
}

/// A grid of cells, one for each window, filled row by row.
#[derive(Debug)]
pub struct Layout {
    pub columns: usize,
    pub items: Vec<LayoutItem>,
}

impl Clone for Layout {
    fn clone(&self) -> (copy: Self)
        ensures
            copy.columns == self.columns,
            copy.items@ == self.items@,
    {
        Layout { columns: self.columns, items: self.items.clone() }
    }
}

/// The index of the first item whose cell holds the point.
pub open spec fn first_hit(items: Seq<LayoutItem>, x: i16, y: i16) -> Option<usize>
    decreases items.len(),
{
    if items.len() == 0 {
        None
    } else {
        match first_hit(items.drop_last(), x, y) {
            Some(index) => Some(index),
            None => {
                if items.last().cell.covers(x as int, y as int) {
                    Some((items.len() - 1) as usize)
                } else {
                    None
                }
            },
        }
    }
}

proof fn lemma_first_hit_extends(items: Seq<LayoutItem>, count: int, x: i16, y: i16)
    requires
        0 <= count <= items.len(),
        first_hit(items.take(count), x, y) is Some,
    ensures
        first_hit(items, x, y) == first_hit(items.take(count), x, y),
    decreases items.len() - count,
{
    if count < items.len() {
        assert(items.take(count + 1).drop_last() =~= items.take(count));
        lemma_first_hit_extends(items, count + 1, x, y);
    } else {
        assert(items.take(count) =~= items);
    }
}

/// The first hit is an item that holds the point, none before it does, and there is one wherever
/// any item holds the point.
pub proof fn law_first_hit(items: Seq<LayoutItem>, x: i16, y: i16)
    requires
        items.len() <= usize::MAX,
    ensures
        match first_hit(items, x, y) {
            Some(index) => {
                &&& index < items.len()
                &&& items[index as int].cell.covers(x as int, y as int)
                &&& forall|i: int|
                    0 <= i < index ==> !(#[trigger] items[i]).cell.covers(x as int, y as int)
            },
            None => forall|i: int|
                0 <= i < items.len() ==> !(#[trigger] items[i]).cell.covers(x as int, y as int),
        },
    decreases items.len(),
{
    if items.len() > 0 {
        law_first_hit(items.drop_last(), x, y);
        assert forall|i: int| 0 <= i < items.len() - 1 implies items.drop_last()[i]
            == #[trigger] items[i] by {}
    }
}

/// The index of the first item whose cell holds the point.
pub fn hit_test(layout: &Layout, x: i16, y: i16) -> (hit: Option<usize>)
    ensures
        hit == first_hit(layout.items@, x, y),
        hit is Some ==> hit->0 < layout.items@.len(),
{
    let mut index: usize = 0;
    assert(layout.items@.take(0) =~= seq![]);
    while index < layout.items.len()
        invariant
            index <= layout.items.len(),
            first_hit(layout.items@.take(index as int), x, y) is None,
        decreases layout.items.len() - index,
    {
        assert(layout.items@.take(index + 1).drop_last() =~= layout.items@.take(index as int));
        if layout.items[index].cell.contains(x, y) {
            proof {
                lemma_first_hit_extends(layout.items@, index + 1, x, y);
            }
            return Some(index);
        }
        index += 1;
    }
    assert(layout.items@.take(index as int) =~= layout.items@);
    None
}

/// The larger of two numbers.
pub open spec fn max(a: int, b: int) -> int {
    if a >= b {
        a
    } else {
        b
    }
}

pub open spec fn min(a: int, b: int) -> int {
    if a <= b {
        a
    } else {
        b
    }
}

/// `a / b`, rounded up.
pub open spec fn quotient_up(a: int, b: int) -> int {
    a / b + if a % b > 0 {
        1int
    } else {
        0int
    }
}

/// The number of columns that keeps the cells of `count` windows in the proportions of the
/// screen: the square root of `count` times the screen's aspect ratio, rounded up.
pub open spec fn proportional_columns(
    count: nat,
    screen_width: nat,
    screen_height: nat,
) -> nat {
    single::scaled_root(count, screen_width, max(screen_height as int, 1) as nat)
}

/// Columns and rows for `count` windows: one row for up to three of them, else columns in
/// proportion to the screen and as many rows as that takes.
pub open spec fn grid_shape(count: nat, screen_width: nat, screen_height: nat) -> (int, int) {
    if count <= 1 {
        (1, 1)
    } else if count <= 3 {
        (count as int, 1)
    } else {
        let columns = min(
            max(proportional_columns(count, screen_width, screen_height) as int, 1),
            count as int,
        );
        (columns, quotient_up(count as int, columns))
    }
}

/// Chooses columns and rows for `count` windows.
pub fn choose_grid(count: usize, screen_width: u16, screen_height: u16) -> (shape: (usize, usize))
    ensures
        (shape.0 as int, shape.1 as int) == grid_shape(
            count as nat,
            screen_width as nat,
            screen_height as nat,
        ),
        shape.0 >= 1,
        shape.1 >= 1,
{
    if count <= 1 {
        return (1, 1);
    }
    if count <= 3 {
        return (count, 1);
    }
    let height: u16 = if screen_height > 1 {
        screen_height
    } else {
        1
    };
    let aspect: Single = Single::from_int(screen_width as u64).divide(
        Single::from_int(height as u64),
    );
    let proportional: u128 = Single::from_int(count as u64).multiply(aspect).sqrt().ceil();
    let columns: usize = if proportional > count as u128 {
        count
    } else if proportional < 1 {
        1
    } else {
        proportional as usize
    };
    let extra: usize = if count % columns > 0 {
        1
    } else {
        0
    };
    proof {
        let c = count as int;
        let k = columns as int;
        assert(c / k <= c && c / k >= 1 && (c % k > 0 ==> c / k < c)) by (nonlinear_arith)
            requires
                1 <= k <= c,
        ;
    }
    (columns, count / columns + extra)
}

/// The largest size in the proportions of the source that fits the area, at least one pixel
/// each way. An area without pixels stays as it is; a source without height counts as
/// infinitely wide, or as infinitely narrow when it has no width either.
pub open spec fn fitted_size(area: (nat, nat), source: (nat, nat)) -> (int, int) {
    let (width, height) = area;
    if width == 0 || height == 0 {
        (width as int, height as int)
    } else if source.1 == 0 {
        if source.0 > 0 {
            (width as int, 1)
        } else {
            (1, height as int)
        }
    } else {
        let area_ratio = single::quotient(single::of_int(width), single::of_int(height));
        let source_ratio = single::quotient(single::of_int(source.0), single::of_int(source.1));
        if single::exceeds(source_ratio, area_ratio) {
            let scaled = single::rounded(single::quotient(single::of_int(width), source_ratio));
            (width as int, min(max(scaled as int, 1), height as int))
        } else {
            let scaled = single::rounded(single::product(single::of_int(height), source_ratio));
            (min(max(scaled as int, 1), width as int), height as int)
        }
    }
}

/// The rectangle of the fitted size in the middle of the area.
pub open spec fn fitted(area: Rect, source: (nat, nat)) -> Rect {
    let (width, height) = fitted_size((area.width as nat, area.height as nat), source);
    Rect {
        x: (area.x + (area.width - width) / 2) as i16,
        y: (area.y + (area.height - height) / 2) as i16,
        width: width as u16,
        height: height as u16,
    }
}

/// The coordinates of the fitted rectangle can be held.
pub open spec fn fitted_holds(area: Rect, source: (nat, nat)) -> bool {
    let (width, height) = fitted_size((area.width as nat, area.height as nat), source);
    &&& holds(area.x + (area.width - width) / 2)
    &&& holds(area.y + (area.height - height) / 2)
}

fn clamp(number: u128, most: u16) -> (clamped: u16)
    requires
        most >= 1,
    ensures
        clamped == min(max(number as int, 1), most as int),
{
    if number > most as u128 {
        most
    } else if number < 1 {
        1
    } else {
        number as u16
    }
}

/// The fitted size.
fn fit_size(area: Rect, source_width: u16, source_height: u16) -> (size: (u16, u16))
    ensures
        (size.0 as int, size.1 as int) == fitted_size(
            (area.width as nat, area.height as nat),
            (source_width as nat, source_height as nat),
        ),
        size.0 <= area.width,
        size.1 <= area.height,
{
    if area.width == 0 || area.height == 0 {
        return (area.width, area.height);
    }
    if source_height == 0 {
        if source_width > 0 {
            return (area.width, 1);
        }
        return (1, area.height);
    }
    let width: Single = Single::from_int(area.width as u64);
    let height: Single = Single::from_int(area.height as u64);
    let area_ratio: Single = width.divide(height);
    let source_ratio: Single = Single::from_int(source_width as u64).divide(
        Single::from_int(source_height as u64),
    );
    if source_ratio.greater(area_ratio) {
        proof {
            assert(source_ratio@.significand > 0) by {
                if source_ratio@.significand == 0 {
                    single::lemma_zero_exceeds_nothing(source_ratio@, area_ratio@);
                }
            }
        }
        (area.width, clamp(width.divide(source_ratio).round(), area.height))
    } else {
        (clamp(height.multiply(source_ratio).round(), area.width), area.height)
    }
}

/// Fits a source into the middle of an area.
pub fn fit_aspect(area: Rect, source_width: u16, source_height: u16) -> (rect: Rect)
    requires
        fitted_holds(area, (source_width as nat, source_height as nat)),
    ensures
        rect == fitted(area, (source_width as nat, source_height as nat)),
{
    let (width, height): (u16, u16) = fit_size(area, source_width, source_height);
    Rect {
        x: (area.x as i32 + ((area.width - width) / 2) as i32) as i16,
        y: (area.y as i32 + ((area.height - height) / 2) as i32) as i16,
        width,
        height,
    }
}

/// The measures of a grid: its columns, the gap between cells, the size of a cell and the
/// corner where the first cell stands.
#[derive(Debug, Clone, Copy)]
pub struct Grid {
    pub columns: usize,
    pub gap: u16,
    pub cell_width: u16,
    pub cell_height: u16,
    pub start_x: i16,
    pub start_y: i16,
}

/// How `parts` cells share one side of the screen: the length of a cell, which is at least one
/// pixel, and where the first one starts so that they stand in the middle.
pub open spec fn shared_side(screen: int, margin: int, gap: int, parts: int) -> (int, int) {
    let gaps = min(gap * (parts - 1), 0xffff);
    let usable = max(screen - 2 * margin - gaps, 1);
    let cell = max(usable / parts, 1);
    let extent = min(min(cell * parts, 0xffff) + gaps, 0xffff);
    (cell, max(screen - extent, 0) / 2)
}

/// The margin around the grid: a tenth of the shorter side of the screen, at most 24.
pub open spec fn margin_of(screen_width: int, screen_height: int) -> int {
    min(24, min(screen_width / 10, screen_height / 10))
}

/// The gap between cells, smaller for a single row of up to three.
pub open spec fn gap_of(count: nat) -> int {
    if count <= 3 {
        12
    } else {
        18
    }
}

/// Columns and rows for the windows; no window still takes one cell.
pub open spec fn shape_of(screen_width: nat, screen_height: nat, windows: nat) -> (int, int) {
    grid_shape(max(windows as int, 1) as nat, screen_width, screen_height)
}

/// The grid for a number of windows on a screen.
pub open spec fn grid_of(screen_width: nat, screen_height: nat, windows: nat) -> Grid {
    let (columns, rows) = shape_of(screen_width, screen_height, windows);
    let margin = margin_of(screen_width as int, screen_height as int);
    let gap = gap_of(windows);
    let (cell_width, start_x) = shared_side(screen_width as int, margin, gap, columns);
    let (cell_height, start_y) = shared_side(screen_height as int, margin, gap, rows);
    Grid {
        columns: columns as usize,
        gap: gap as u16,
        cell_width: cell_width as u16,
        cell_height: cell_height as u16,
        start_x: start_x as i16,
        start_y: start_y as i16,
    }
}

/// The space kept free around a preview inside its cell.
pub const PADDING: u16 = 12;

/// The height kept free for the label below a preview.
pub const LABEL_HEIGHT: u16 = 34;

impl Grid {
    pub open spec fn column_offset(self, index: int) -> int {
        (index % self.columns as int) * wrapped(self.cell_width + self.gap)
    }

    pub open spec fn row_offset(self, index: int) -> int {
        (index / self.columns as int) * wrapped(self.cell_height + self.gap)
    }

    /// The left edge of a cell.
    pub open spec fn left(self, index: int) -> int {
        self.start_x + self.column_offset(index)
    }

    /// The top edge of a cell.
    pub open spec fn top(self, index: int) -> int {
        self.start_y + self.row_offset(index)
    }

    pub open spec fn cell(self, index: int) -> Rect {
        Rect {
            x: self.left(index) as i16,
            y: self.top(index) as i16,
            width: self.cell_width,
            height: self.cell_height,
        }
    }

    /// The part of a cell where its preview may stand.
    pub open spec fn preview_area(self, index: int) -> Rect {
        Rect {
            x: (self.left(index) + PADDING) as i16,
            y: (self.top(index) + PADDING) as i16,
            width: max(self.cell_width - 2 * PADDING, 0) as u16,
            height: max(self.cell_height - LABEL_HEIGHT - 2 * PADDING, 0) as u16,
        }
    }

    /// The cell and preview of a window of the given size.
    pub open spec fn item(self, index: int, source: (nat, nat)) -> LayoutItem {
        LayoutItem {
            cell: self.cell(index),
            preview: fitted(self.preview_area(index), at_least_one(source)),
        }
    }

    /// Every coordinate on the way to the item can be held.
    pub open spec fn item_holds(self, index: int, source: (nat, nat)) -> bool {
        &&& self.cell_width + self.gap <= 0xffff
        &&& self.cell_height + self.gap <= 0xffff
        &&& holds(self.column_offset(index))
        &&& holds(self.row_offset(index))
        &&& holds(self.left(index))
        &&& holds(self.top(index))
        &&& holds(self.left(index) + PADDING)
        &&& holds(self.top(index) + PADDING)
        &&& fitted_holds(self.preview_area(index), at_least_one(source))
    }
}

pub open spec fn at_least_one(size: (nat, nat)) -> (nat, nat) {
    (max(size.0 as int, 1) as nat, max(size.1 as int, 1) as nat)
}

pub open spec fn source_size(window: WindowInfo) -> (nat, nat) {
    (window.geometry.width as nat, window.geometry.height as nat)
}

/// The layout of these windows has coordinates that can be held throughout.
pub open spec fn layout_fits(
    screen_width: u16,
    screen_height: u16,
    windows: Seq<WindowInfo>,
) -> bool {
    let (columns, rows) = shape_of(screen_width as nat, screen_height as nat, windows.len());
    let grid = grid_of(screen_width as nat, screen_height as nat, windows.len());
    &&& columns <= 0xffff
    &&& rows <= 0xffff
    &&& forall|i: int|
        0 <= i < windows.len() ==> grid.item_holds(i, source_size(#[trigger] windows[i]))
}

fn share_side(screen: u16, margin: u16, gap: u16, parts: u16) -> (side: (u16, i16))
    requires
        parts >= 1,
        margin <= 24,
        gap <= 18,
    ensures
        (side.0 as int, side.1 as int) == shared_side(
            screen as int,
            margin as int,
            gap as int,
            parts as int,
        ),
{
    assert(0 <= gap * (parts - 1) <= 18 * 0xffff) by (nonlinear_arith)
        requires
            0 <= gap <= 18,
            1 <= parts <= 0xffff,
    ;
    let all_gaps: u32 = gap as u32 * (parts as u32 - 1);
    let gaps: u32 = if all_gaps > 0xffff {
        0xffff
    } else {
        all_gaps
    };
    let taken: u32 = 2 * margin as u32 + gaps;
    let usable: u32 = if screen as u32 > taken {
        screen as u32 - taken
    } else {
        1
    };
    let share: u32 = usable / parts as u32;
    let cell: u32 = if share > 1 {
        share
    } else {
        1
    };
    assert(usable / parts as u32 <= usable) by (nonlinear_arith)
        requires
            parts >= 1,
    ;
    assert(0 <= cell * parts <= 0xffff * 0xffff) by (nonlinear_arith)
        requires
            0 <= cell <= 0xffff,
            0 <= parts <= 0xffff,
    ;
    let cells: u64 = cell as u64 * parts as u64;
    let held: u64 = if cells > 0xffff {
        0xffff
    } else {
        cells
    };
    let both: u64 = held + gaps as u64;
    let extent: u64 = if both > 0xffff {
        0xffff
    } else {
        both
    };
    let start: u64 = if screen as u64 > extent {
        (screen as u64 - extent) / 2
    } else {
        0
    };
    (cell as u16, start as i16)
}

/// Measures the grid.
fn measure(screen_width: u16, screen_height: u16, windows: usize) -> (grid: Option<Grid>)
    ensures
        ({
            let (columns, rows) = shape_of(
                screen_width as nat,
                screen_height as nat,
                windows as nat,
            );
            match grid {
                Some(g) => {
                    &&& columns <= 0xffff && rows <= 0xffff
                    &&& g == grid_of(screen_width as nat, screen_height as nat, windows as nat)
                    &&& g.columns >= 1
                },
                None => columns > 0xffff || rows > 0xffff,
            }
        }),
{
    let count: usize = if windows > 1 {
        windows
    } else {
        1
    };
    let (columns, rows): (usize, usize) = choose_grid(count, screen_width, screen_height);
    if columns > 0xffff || rows > 0xffff {
        return None;
    }
    let tenth: u16 = if screen_width / 10 < screen_height / 10 {
        screen_width / 10
    } else {
        screen_height / 10
    };
    let margin: u16 = if tenth < 24 {
        tenth
    } else {
        24
    };
    let gap: u16 = if windows <= 3 {
        12
    } else {
        18
    };
    let (cell_width, start_x): (u16, i16) = share_side(screen_width, margin, gap, columns as u16);
    let (cell_height, start_y): (u16, i16) = share_side(screen_height, margin, gap, rows as u16);
    Some(Grid { columns, gap, cell_width, cell_height, start_x, start_y })
}

fn in_range(number: i64) -> (result: bool)
    ensures
        result == holds(number as int),
{
    -0x8000 <= number && number <= 0x7fff
}

fn one_or_more(number: u16) -> (result: u16)
    ensures
        result == max(number as int, 1),
{
    if number > 1 {
        number
    } else {
        1
    }
}

/// Whether a fitted rectangle has coordinates that can be held.
fn fit_holds(area: Rect, source_width: u16, source_height: u16) -> (result: bool)
    ensures
        result == fitted_holds(area, (source_width as nat, source_height as nat)),
{
    let (width, height): (u16, u16) = fit_size(area, source_width, source_height);
    in_range(area.x as i64 + ((area.width - width) / 2) as i64) && in_range(
        area.y as i64 + ((area.height - height) / 2) as i64,
    )
}

proof fn lemma_small_product(count: int, step: int)
    requires
        0 <= count <= u64::MAX,
        holds(step),
    ensures
        -0x8000 * 0x1_0000_0000_0000_0000 <= count * step <= 0x8000 * 0x1_0000_0000_0000_0000,
{
    assert(-0x8000 * 0x1_0000_0000_0000_0000 <= count * step <= 0x8000 * 0x1_0000_0000_0000_0000)
        by (nonlinear_arith)
        requires
            0 <= count <= 0x1_0000_0000_0000_0000,
            -0x8000 <= step <= 0x7fff,
    ;
}

/// Places one window in the grid.
fn place(grid: &Grid, index: usize, window: &WindowInfo) -> (item: Option<LayoutItem>)
    requires
        grid.columns >= 1,
    ensures
        match item {
            Some(placed) => {
                &&& grid.item_holds(index as int, source_size(*window))
                &&& placed == grid.item(index as int, source_size(*window))
            },
            None => !grid.item_holds(index as int, source_size(*window)),
        },
{
    if grid.cell_width > 0xffff - grid.gap || grid.cell_height > 0xffff - grid.gap {
        return None;
    }
    let column: usize = index % grid.columns;
    let row: usize = index / grid.columns;
    let step_x: i16 = wrap(grid.cell_width + grid.gap);
    let step_y: i16 = wrap(grid.cell_height + grid.gap);
    proof {
        lemma_small_product(column as int, step_x as int);
        lemma_small_product(row as int, step_y as int);
    }
    let dx: i128 = column as i128 * step_x as i128;
    let dy: i128 = row as i128 * step_y as i128;
    if dx < -0x8000 || dx > 0x7fff || dy < -0x8000 || dy > 0x7fff {
        return None;
    }
    let x: i64 = grid.start_x as i64 + dx as i64;
    let y: i64 = grid.start_y as i64 + dy as i64;
    if !in_range(x) || !in_range(y) || !in_range(x + PADDING as i64) || !in_range(
        y + PADDING as i64,
    ) {
        return None;
    }
    let width: u16 = if grid.cell_width > 2 * PADDING {
        grid.cell_width - 2 * PADDING
    } else {
        0
    };
    let height: u16 = if grid.cell_height > LABEL_HEIGHT + 2 * PADDING {
        grid.cell_height - LABEL_HEIGHT - 2 * PADDING
    } else {
        0
    };
    let area: Rect = Rect {
        x: (x + PADDING as i64) as i16,
        y: (y + PADDING as i64) as i16,
        width,
        height,
    };
    let source_width: u16 = one_or_more(window.geometry.width);
    let source_height: u16 = one_or_more(window.geometry.height);
    if !fit_holds(area, source_width, source_height) {
        return None;
    }
    Some(
        LayoutItem {
            cell: Rect {
                x: x as i16,
                y: y as i16,
                width: grid.cell_width,
                height: grid.cell_height,
            },
            preview: fit_aspect(area, source_width, source_height),
        },
    )
}

/// Whether the layout of these windows has coordinates that can be held throughout.
pub fn can_compute(screen_width: u16, screen_height: u16, windows: &[WindowInfo]) -> (fits: bool)
    ensures
        fits == layout_fits(screen_width, screen_height, windows@),
{
    match measure(screen_width, screen_height, windows.len()) {
        None => false,
        Some(grid) => {
            let mut index: usize = 0;
            while index < windows.len()
                invariant
                    index <= windows.len(),
                    grid.columns >= 1,
                    grid == grid_of(screen_width as nat, screen_height as nat, windows@.len()),
                    forall|i: int|
                        0 <= i < index ==> grid.item_holds(i, source_size(#[trigger] windows@[i])),
                decreases windows.len() - index,
            {
                if place(&grid, index, &windows[index]).is_none() {
                    return false;
                }
                index += 1;
            }
            true
        },
    }
}

/// Lays the windows out in a grid on the screen.
pub fn compute(screen_width: u16, screen_height: u16, windows: &[WindowInfo]) -> (layout: Layout)
    requires
        layout_fits(screen_width, screen_height, windows@),
    ensures
        layout.columns == shape_of(screen_width as nat, screen_height as nat, windows@.len()).0,
        layout.columns >= 1,
        layout.items.len() == windows@.len(),
        forall|i: int|
            0 <= i < windows@.len() ==> #[trigger] layout.items[i] == grid_of(
                screen_width as nat,
                screen_height as nat,
                windows@.len(),
            ).item(i, source_size(windows@[i])),
{
    let grid: Grid = measure(screen_width, screen_height, windows.len()).unwrap();
    let mut items: Vec<LayoutItem> = Vec::new();
    let mut index: usize = 0;
    while index < windows.len()
        invariant
            layout_fits(screen_width, screen_height, windows@),
            index <= windows.len(),
            items.len() == index,
            grid.columns >= 1,
            grid == grid_of(screen_width as nat, screen_height as nat, windows@.len()),
            forall|i: int|
                0 <= i < index ==> #[trigger] items[i] == grid.item(i, source_size(windows@[i])),
        decreases windows.len() - index,
    {
        assert(grid.item_holds(index as int, source_size(windows@[index as int])));
        items.push(place(&grid, index, &windows[index]).unwrap());
        index += 1;
    }
    Layout { columns: grid.columns, items }
}

proof fn lemma_quotient_up(a: int, b: int)
    requires
        0 <= a,
        1 <= b,
    ensures
        quotient_up(a, b) * b >= a,
        forall|i: int| 0 <= i < a ==> 0 <= #[trigger] (i / b) < quotient_up(a, b),
        a >= 1 ==> quotient_up(a, b) >= 1,
{
    let q = a / b;
    assert(a == b * q + a % b && 0 <= a % b < b && q >= 0) by (nonlinear_arith)
        requires
            0 <= a,
            1 <= b,
            q == a / b,
    ;
    assert((q + 1) * b == b * q + b) by (nonlinear_arith);
    assert(q * b == b * q) by (nonlinear_arith);
    assert forall|i: int| 0 <= i < a implies 0 <= #[trigger] (i / b) < quotient_up(a, b) by {
        let k = i / b;
        assert(b * k <= i && k >= 0) by (nonlinear_arith)
            requires
                0 <= i,
                1 <= b,
                k == i / b,
        ;
        assert(k < quotient_up(a, b)) by (nonlinear_arith)
            requires
                b * k <= i,
                i < a,
                a <= quotient_up(a, b) * b,
                1 <= b,
        ;
    }
    if a >= 1 && q == 0 {
        assert(b * q == 0) by (nonlinear_arith)
            requires
                q == 0,
        ;
    }
}

/// The grid has a cell for every window and no more columns than windows: there are at least
/// one column and one row, and each window's column and row lie inside the grid.
pub proof fn law_grid_holds_every_window(screen_width: nat, screen_height: nat, windows: nat)
    ensures
        ({
            let (columns, rows) = shape_of(screen_width, screen_height, windows);
            &&& 1 <= columns <= max(windows as int, 1)
            &&& 1 <= rows
            &&& columns * rows >= windows
            &&& forall|i: int|
                0 <= i < windows ==> 0 <= #[trigger] (i % columns) < columns && 0 <= i / columns
                    < rows
        }),
{
    let count = max(windows as int, 1);
    let (columns, rows) = shape_of(screen_width, screen_height, windows);
    if count > 3 {
        lemma_quotient_up(count, columns);
        assert(columns * rows == rows * columns) by (nonlinear_arith);
    }
    assert forall|i: int| 0 <= i < windows implies 0 <= #[trigger] (i % columns) < columns && 0 <= i
        / columns < rows by {
        if count <= 3 {
            assert(i / columns == 0) by (nonlinear_arith)
                requires
                    0 <= i < columns,
            ;
        }
        assert(0 <= i % columns < columns) by (nonlinear_arith)
            requires
                columns >= 1,
        ;
    }
}

/// A wider screen never gets fewer columns, nor more rows, and a taller one never more columns,
/// nor fewer rows.
pub proof fn law_columns_follow_the_screen(
    count: nat,
    narrow: u16,
    wide: u16,
    high: u16,
    low: u16,
)
    requires
        narrow <= wide,
        low <= high,
    ensures
        ({
            let before = grid_shape(count, narrow as nat, high as nat);
            let after = grid_shape(count, wide as nat, low as nat);
            before.0 <= after.0 && before.1 >= after.1
        }),
{
    if count > 3 {
        single::law_scaled_root_follows_the_quotient(
            count,
            narrow as nat,
            max(high as int, 1) as nat,
            wide as nat,
            max(low as int, 1) as nat,
        );
        let few = grid_shape(count, narrow as nat, high as nat).0;
        let many = grid_shape(count, wide as nat, low as nat).0;
        let rows = quotient_up(count as int, few);
        lemma_quotient_up(count as int, few);
        assert(rows * many >= count) by (nonlinear_arith)
            requires
                rows * few >= count,
                0 < few <= many,
        ;
        lemma_quotient_up_least(count as int, many, rows);
    }
}

/// Past the single row of up to three windows, more windows never get fewer columns.
pub proof fn law_columns_follow_the_windows(
    few: nat,
    many: nat,
    screen_width: u16,
    screen_height: u16,
)
    requires
        3 < few <= many,
    ensures
        grid_shape(few, screen_width as nat, screen_height as nat).0 <= grid_shape(
            many,
            screen_width as nat,
            screen_height as nat,
        ).0,
{
    single::law_scaled_root_follows_the_number(
        few,
        many,
        screen_width as nat,
        max(screen_height as int, 1) as nat,
    );
}

/// No smaller number of parts than the quotient rounded up is enough.
proof fn lemma_quotient_up_least(a: int, b: int, parts: int)
    requires
        0 <= a,
        1 <= b,
        a <= parts * b,
    ensures
        quotient_up(a, b) <= parts,
{
    let q = a / b;
    let r = a % b;
    assert(a == b * q + r && 0 <= r < b) by (nonlinear_arith)
        requires
            1 <= b,
            q == a / b,
            r == a % b,
    ;
    assert(q <= parts && (r > 0 ==> q < parts)) by (nonlinear_arith)
        requires
            b * q + r <= parts * b,
            0 <= r,
            1 <= b,
    ;
}

/// The signed step from one of several cells to the next is at least as long as a cell.
proof fn lemma_step_clears_cell(screen: int, margin: int, gap: int, parts: int)
    requires
        0 <= screen <= 0xffff,
        0 <= margin <= 24,
        12 <= gap <= 18,
        2 <= parts,
    ensures
        ({
            let cell = shared_side(screen, margin, gap, parts).0;
            let step = wrapped(cell + gap);
            &&& 1 <= cell <= 0x7fff
            &&& step >= cell || -step >= cell
        }),
{
    let gaps = min(gap * (parts - 1), 0xffff);
    let usable = max(screen - 2 * margin - gaps, 1);
    assert(gap * (parts - 1) >= gap) by (nonlinear_arith)
        requires
            gap >= 0,
            parts >= 2,
    ;
    let cell = max(usable / parts, 1);
    assert(2 * (usable / parts) <= usable) by (nonlinear_arith)
        requires
            usable >= 0,
            parts >= 2,
    ;
}

/// Two multiples of a step that is at least as long as a cell are at least a cell apart.
proof fn lemma_multiples_apart(a: int, b: int, step: int, cell: int)
    requires
        a != b,
        step >= cell || -step >= cell,
        cell >= 0,
    ensures
        a * step - b * step >= cell || b * step - a * step >= cell,
{
    assert(a * step - b * step >= cell || b * step - a * step >= cell) by (nonlinear_arith)
        requires
            a != b,
            step >= cell || -step >= cell,
            cell >= 0,
    ;
}

/// No point lies in the cells of two different windows, so a hit names one window.
pub proof fn law_cells_are_disjoint(
    screen_width: u16,
    screen_height: u16,
    windows: Seq<WindowInfo>,
    first: int,
    second: int,
    x: int,
    y: int,
)
    requires
        layout_fits(screen_width, screen_height, windows),
        0 <= first < windows.len(),
        0 <= second < windows.len(),
        first != second,
    ensures
        ({
            let grid = grid_of(screen_width as nat, screen_height as nat, windows.len());
            !(grid.cell(first).covers(x, y) && grid.cell(second).covers(x, y))
        }),
{
    let width = screen_width as nat;
    let height = screen_height as nat;
    let count = windows.len();
    let grid = grid_of(width, height, count);
    let (columns, rows) = shape_of(width, height, count);
    let margin = margin_of(width as int, height as int);
    let gap = gap_of(count);
    law_grid_holds_every_window(width, height, count);
    assert(grid.item_holds(first, source_size(windows[first])));
    assert(grid.item_holds(second, source_size(windows[second])));
    let cell_width = shared_side(width as int, margin, gap, columns).0;
    let cell_height = shared_side(height as int, margin, gap, rows).0;
    if first % columns != second % columns {
        assert(columns >= 2) by {
            if columns == 1 {
                assert(first % 1 == 0 && second % 1 == 0);
            }
        }
        lemma_step_clears_cell(width as int, margin, gap, columns);
        lemma_multiples_apart(
            first % columns,
            second % columns,
            wrapped(cell_width + gap),
            cell_width,
        );
    } else {
        assert(first / columns != second / columns) by {
            assert(first == columns * (first / columns) + first % columns && second == columns * (
            second / columns) + second % columns) by (nonlinear_arith)
                requires
                    columns >= 1,
            ;
        }
        assert(rows >= 2) by {
            assert(0 <= first % columns < columns);
            assert(0 <= second % columns < columns);
        }
        lemma_step_clears_cell(height as int, margin, gap, rows);
        lemma_multiples_apart(
            first / columns,
            second / columns,
            wrapped(cell_height + gap),
            cell_height,
        );
    }
}

/// A fitted rectangle stays inside its area, fills it in one direction, and has a pixel each way
/// where the area has one.
pub proof fn law_fit_stays_inside(area: Rect, source: (nat, nat))
    requires
        fitted_holds(area, source),
    ensures
        ({
            let rect = fitted(area, source);
            &&& area.x <= rect.x && rect.x + rect.width <= area.x + area.width
            &&& area.y <= rect.y && rect.y + rect.height <= area.y + area.height
            &&& rect.width == area.width || rect.height == area.height
            &&& area.width > 0 && area.height > 0 ==> rect.width > 0 && rect.height > 0
        }),
{
}

/// `a` is less than one `unit` away from `b`.
pub open spec fn within_one(a: int, b: int, unit: int) -> bool {
    -unit < a - b < unit
}

/// A fitted rectangle keeps the proportions of its source: one of its sides is that of the area,
/// and the other one is less than a pixel away from what the proportions ask for.
pub proof fn law_fit_keeps_the_proportions(area: (u16, u16), source: (u16, u16))
    requires
        area.0 > 0,
        area.1 > 0,
        source.0 > 0,
        source.1 > 0,
    ensures
        ({
            let (width, height) = fitted_size(
                (area.0 as nat, area.1 as nat),
                (source.0 as nat, source.1 as nat),
            );
            ||| width == area.0 && within_one(
                height * source.0,
                width * source.1,
                source.0 as int,
            )
            ||| height == area.1 && within_one(
                width * source.1,
                height * source.0,
                source.1 as int,
            )
        }),
{
    let (width, height) = (area.0 as nat, area.1 as nat);
    let (across, down) = (source.0 as nat, source.1 as nat);
    let area_ratio = single::quotient(single::of_int(width), single::of_int(height));
    let source_ratio = single::quotient(single::of_int(across), single::of_int(down));
    if single::exceeds(source_ratio, area_ratio) {
        let scaled = single::rounded(single::quotient(single::of_int(width), source_ratio));
        single::lemma_exceeding_is_one_way(width, height, across, down);
        single::law_ratios_keep_their_order(width, height, across, down);
        lemma_close_to_area(width as int, down as int, across as int, height as int);
        single::law_divided_by_a_ratio(width, across, down);
        lemma_clamped_near(scaled as int, (width * down) as int, across as int, height as int);
    } else {
        let scaled = single::rounded(single::product(single::of_int(height), source_ratio));
        single::law_ratios_keep_their_order(across, down, width, height);
        lemma_close_to_area(height as int, across as int, down as int, width as int);
        single::law_scaled_by_a_ratio(height, across, down);
        lemma_clamped_near(scaled as int, (height * across) as int, down as int, width as int);
    }
}

/// What is at most `limit` but for two parts in `2^24` is less than `limit` and one.
proof fn lemma_close_to_area(number: int, factor: int, unit: int, limit: int)
    requires
        0 < number,
        0 < factor,
        0 < limit <= 0xffff,
        0 < unit,
        0xff_ffff * (number * factor) <= 0x100_0001 * (unit * limit) || 0xff_ffff * (number
            * factor) <= 0x100_0001 * (limit * unit),
    ensures
        0 < number * factor < (limit + 1) * unit,
        number * factor <= 0x2_0000 * unit,
{
    let exact = number * factor;
    let most = limit * unit;
    assert(exact > 0) by (nonlinear_arith)
        requires
            exact == number * factor,
            number > 0,
            factor > 0,
    ;
    assert(unit * limit == most && (limit + 1) * unit == most + unit && most <= 0xffff * unit)
        by (nonlinear_arith)
        requires
            most == limit * unit,
            limit <= 0xffff,
            unit > 0,
    ;
}

/// Bringing a number between one pixel and the length of a side takes it no further from a
/// length that is positive and less than a pixel past that side.
proof fn lemma_clamped_near(scaled: int, exact: int, unit: int, limit: int)
    requires
        unit > 0,
        limit > 0,
        0 < exact < (limit + 1) * unit,
        within_one(scaled * unit, exact, unit),
    ensures
        within_one(min(max(scaled, 1), limit) * unit, exact, unit),
{
    let clamped = min(max(scaled, 1), limit);
    if clamped > scaled {
        assert(scaled <= 0);
        assert(scaled * unit <= 0) by (nonlinear_arith)
            requires
                scaled <= 0,
                unit > 0,
        ;
        assert(1 * unit == unit);
    } else if clamped < scaled {
        assert(scaled * unit >= limit * unit + unit && (limit + 1) * unit == limit * unit + unit)
            by (nonlinear_arith)
            requires
                scaled >= limit + 1,
                unit > 0,
        ;
    }
}

/// A side of the screen has room for its cells: at least one pixel for each.
pub open spec fn roomy(screen: int, margin: int, gap: int, parts: int) -> bool {
    screen - 2 * margin - gap * (parts - 1) >= parts
}

/// The grid has room on both sides of a screen whose coordinates leave space for the padding.
pub open spec fn ordinary_screen(screen_width: u16, screen_height: u16, windows: nat) -> bool {
    let (columns, rows) = shape_of(screen_width as nat, screen_height as nat, windows);
    let margin = margin_of(screen_width as int, screen_height as int);
    let gap = gap_of(windows);
    &&& screen_width <= 0x7fff - PADDING
    &&& screen_height <= 0x7fff - PADDING
    &&& roomy(screen_width as int, margin, gap, columns)
    &&& roomy(screen_height as int, margin, gap, rows)
}

/// On a side with room, every cell stands on the screen.
proof fn lemma_cells_on_side(screen: int, margin: int, gap: int, parts: int, place: int)
    requires
        0 <= screen <= 0x7fff - PADDING,
        0 <= margin <= 24,
        12 <= gap <= 18,
        1 <= parts,
        0 <= place < parts,
        roomy(screen, margin, gap, parts),
    ensures
        ({
            let (cell, start) = shared_side(screen, margin, gap, parts);
            let step = wrapped(cell + gap);
            &&& 1 <= cell <= screen
            &&& parts <= screen
            &&& 0 <= place * step <= screen
            &&& 0 <= start + place * step
            &&& start + place * step + cell <= screen
        }),
{
    let (cell, start) = shared_side(screen, margin, gap, parts);
    let usable = screen - 2 * margin - gap * (parts - 1);
    assert(gap * (parts - 1) >= 0) by (nonlinear_arith)
        requires
            gap >= 0,
            parts >= 1,
    ;
    assert(usable / parts >= 1 && cell * parts <= usable) by (nonlinear_arith)
        requires
            cell == max(usable / parts, 1),
            usable >= parts,
            parts >= 1,
    ;
    assert(cell <= cell * parts) by (nonlinear_arith)
        requires
            cell >= 0,
            parts >= 1,
    ;
    let step = cell + gap;
    if parts > 1 {
        assert(cell * 2 <= cell * parts && gap <= gap * (parts - 1)) by (nonlinear_arith)
            requires
                cell >= 0,
                gap >= 0,
                parts >= 2,
        ;
    }
    assert(place * step + cell <= cell * parts + gap * (parts - 1) && 0 <= place * step)
        by (nonlinear_arith)
        requires
            0 <= place <= parts - 1,
            step == cell + gap,
            cell >= 0,
            gap >= 0,
    ;
    if parts == 1 {
        assert(place * wrapped(step) == 0) by (nonlinear_arith)
            requires
                place == 0,
        ;
    }
}

/// On a screen with room the layout can be computed, and every cell stands on the screen.
pub proof fn law_ordinary_layouts_fit(
    screen_width: u16,
    screen_height: u16,
    windows: Seq<WindowInfo>,
)
    requires
        ordinary_screen(screen_width, screen_height, windows.len()),
    ensures
        layout_fits(screen_width, screen_height, windows),
        forall|i: int|
            0 <= i < windows.len() ==> {
                let cell = #[trigger] grid_of(
                    screen_width as nat,
                    screen_height as nat,
                    windows.len(),
                ).cell(i);
                &&& 0 <= cell.x && cell.x + cell.width <= screen_width
                &&& 0 <= cell.y && cell.y + cell.height <= screen_height
            },
{
    let width = screen_width as nat;
    let height = screen_height as nat;
    let count = windows.len();
    let grid = grid_of(width, height, count);
    let (columns, rows) = shape_of(width, height, count);
    let margin = margin_of(width as int, height as int);
    let gap = gap_of(count);
    law_grid_holds_every_window(width, height, count);
    lemma_cells_on_side(width as int, margin, gap, columns, 0);
    lemma_cells_on_side(height as int, margin, gap, rows, 0);
    assert forall|i: int| 0 <= i < windows.len() implies {
        let cell = #[trigger] grid.cell(i);
        &&& 0 <= cell.x && cell.x + cell.width <= screen_width
        &&& 0 <= cell.y && cell.y + cell.height <= screen_height
        &&& grid.item_holds(i, source_size(windows[i]))
    } by {
        assert(0 <= i % columns < columns);
        lemma_cells_on_side(width as int, margin, gap, columns, i % columns);
        lemma_cells_on_side(height as int, margin, gap, rows, i / columns);
    }
    assert forall|i: int| 0 <= i < windows.len() implies grid.item_holds(
        i,
        source_size(#[trigger] windows[i]),
    ) by {
        let cell = grid.cell(i);
    }
}

/// In a cell with room for the padding and the label, the preview stands inside the cell.
pub proof fn law_previews_stay_in_their_cells(grid: Grid, index: int, source: (nat, nat))
    requires
        grid.item_holds(index, source),
        grid.cell_width >= 2 * PADDING,
        grid.cell_height >= LABEL_HEIGHT + 2 * PADDING,
    ensures
        ({
            let item = grid.item(index, source);
            &&& item.cell.x <= item.preview.x
            &&& item.preview.x + item.preview.width <= item.cell.x + item.cell.width
            &&& item.cell.y <= item.preview.y
            &&& item.preview.y + item.preview.height + LABEL_HEIGHT <= item.cell.y
                + item.cell.height
        }),
{
    law_fit_stays_inside(grid.preview_area(index), at_least_one(source));
}

/// A rectangle holds the points from its left and top edge up to its right and bottom ones, as
/// far as there are coordinates. One that is too large for them holds none.
pub proof fn law_rectangles_hold_their_points(rect: Rect, x: i16, y: i16)
    ensures
        rect.covers(x as int, y as int) <==> {
            &&& rect.width < 0x8000 && rect.height < 0x8000
            &&& rect.x <= x < rect.x + rect.width && x < 0x7fff
            &&& rect.y <= y < rect.y + rect.height && y < 0x7fff
        },
{
}

/// Up to three windows share one row; more of them take as many rows as their columns need, and
/// no row is empty.
pub proof fn law_rows_are_filled(count: nat, screen_width: nat, screen_height: nat)
    ensures
        ({
            let (columns, rows) = grid_shape(count, screen_width, screen_height);
            &&& count <= 3 ==> rows == 1
            &&& count == 1 ==> columns == 1
            &&& count == 2 ==> columns == 2
            &&& count == 3 ==> columns == 3
            &&& count > 0 ==> 1 <= columns && (rows - 1) * columns < count <= rows * columns
        }),
{
    if count > 3 {
        let (columns, rows) = grid_shape(count, screen_width, screen_height);
        lemma_quotient_up(count as int, columns);
        if (rows - 1) * columns >= count {
            lemma_quotient_up_least(count as int, columns, rows - 1);
        }
    }
}

proof fn lemma_next_place(index: int, columns: int)
    requires
        0 <= index,
        1 <= columns,
    ensures
        (index + 1) % columns != 0 ==> (index + 1) % columns == index % columns + 1 && (index + 1)
            / columns == index / columns,
        (index + 1) % columns == 0 ==> (index + 1) / columns == index / columns + 1,
        0int % columns == 0 && 0int / columns == 0,
{
    let q = index / columns;
    let r = index % columns;
    vstd::arithmetic::div_mod::lemma_fundamental_div_mod(index, columns);
    assert(0 <= r < columns) by (nonlinear_arith)
        requires
            r == index % columns,
            columns >= 1,
    ;
    assert(columns * q == q * columns) by (nonlinear_arith);
    assert((q + 1) * columns == q * columns + columns) by (nonlinear_arith);
    if r + 1 < columns {
        vstd::arithmetic::div_mod::lemma_fundamental_div_mod_converse(
            index + 1,
            columns,
            q,
            r + 1,
        );
    } else {
        vstd::arithmetic::div_mod::lemma_fundamental_div_mod_converse(
            index + 1,
            columns,
            q + 1,
            0,
        );
    }
    vstd::arithmetic::div_mod::lemma_fundamental_div_mod_converse(0, columns, 0, 0);
}

/// The cells share a side of the screen: as large as they can be, and in the middle.
proof fn lemma_side_is_used(screen: int, margin: int, gap: int, parts: int)
    requires
        0 <= screen <= 0x7fff - PADDING,
        0 <= margin <= 24,
        12 <= gap <= 18,
        1 <= parts,
        roomy(screen, margin, gap, parts),
    ensures
        ({
            let (cell, start) = shared_side(screen, margin, gap, parts);
            let used = cell * parts + gap * (parts - 1);
            &&& 0 <= screen - used - 2 * start <= 1
            &&& used + 2 * margin <= screen < used + parts + 2 * margin
        }),
{
    let (cell, start) = shared_side(screen, margin, gap, parts);
    let usable = screen - 2 * margin - gap * (parts - 1);
    assert(gap * (parts - 1) >= 0) by (nonlinear_arith)
        requires
            gap >= 0,
            parts >= 1,
    ;
    assert(usable / parts >= 1 && cell * parts <= usable && usable < cell * parts + parts)
        by (nonlinear_arith)
        requires
            cell == max(usable / parts, 1),
            usable >= parts,
            parts >= 1,
    ;
}

/// The windows fill the grid row by row: the next one stands to the right across the gap, or
/// below in the first column where the row is full. The cells are as large as the screen, the
/// margin and the gaps let them be, and the grid stands in the middle of the screen.
pub proof fn law_cells_stand_in_rows(
    screen_width: u16,
    screen_height: u16,
    windows: nat,
    index: int,
)
    requires
        ordinary_screen(screen_width, screen_height, windows),
        0 <= index < windows,
    ensures
        ({
            let (columns, rows) = shape_of(screen_width as nat, screen_height as nat, windows);
            let grid = grid_of(screen_width as nat, screen_height as nat, windows);
            let gap: int = if windows <= 3 {
                12
            } else {
                18
            };
            let tenth = min(screen_width as int / 10, screen_height as int / 10);
            let margin = min(24, tenth);
            let first = grid.cell(0);
            let cell = grid.cell(index);
            let next = grid.cell(index + 1);
            let across = cell.width * columns + gap * (columns - 1);
            let down = cell.height * rows + gap * (rows - 1);
            &&& cell.width == first.width && cell.height == first.height
            &&& index + 1 < windows && (index + 1) % columns != 0 ==> next.x == cell.x
                + cell.width + gap && next.y == cell.y
            &&& index + 1 < windows && (index + 1) % columns == 0 ==> next.x == first.x && next.y
                == cell.y + cell.height + gap
            &&& 0 <= screen_width - across - 2 * first.x <= 1
            &&& 0 <= screen_height - down - 2 * first.y <= 1
            &&& across + 2 * margin <= screen_width < across + columns + 2 * margin
            &&& down + 2 * margin <= screen_height < down + rows + 2 * margin
        }),
{
    let width = screen_width as nat;
    let height = screen_height as nat;
    let (columns, rows) = shape_of(width, height, windows);
    let margin = margin_of(width as int, height as int);
    let gap = gap_of(windows);
    law_grid_holds_every_window(width, height, windows);
    lemma_side_is_used(width as int, margin, gap, columns);
    lemma_side_is_used(height as int, margin, gap, rows);
    lemma_next_place(index, columns);
    lemma_cells_on_side(width as int, margin, gap, columns, 0);
    lemma_cells_on_side(height as int, margin, gap, rows, 0);
    assert(0 <= index % columns < columns);
    lemma_cells_on_side(width as int, margin, gap, columns, index % columns);
    lemma_cells_on_side(height as int, margin, gap, rows, index / columns);
    let across = shared_side(width as int, margin, gap, columns).0 + gap;
    let down = shared_side(height as int, margin, gap, rows).0 + gap;
    assert(0 * wrapped(across) == 0 && 0 * wrapped(down) == 0);
    if index + 1 < windows {
        assert(0 <= (index + 1) % columns < columns);
        lemma_cells_on_side(width as int, margin, gap, columns, (index + 1) % columns);
        lemma_cells_on_side(height as int, margin, gap, rows, (index + 1) / columns);
        let column = index % columns;
        let row = index / columns;
        assert((column + 1) * wrapped(across) == column * wrapped(across) + wrapped(across))
            by (nonlinear_arith);
        assert((row + 1) * wrapped(down) == row * wrapped(down) + wrapped(down))
            by (nonlinear_arith);
        if (index + 1) % columns != 0 {
            assert(columns >= 2);
            lemma_one_of_several(width as int, margin, gap, columns);
        } else {
            assert(rows >= 2);
            lemma_one_of_several(height as int, margin, gap, rows);
        }
    }
}

/// One of several cells is small enough for its step to be held.
proof fn lemma_one_of_several(screen: int, margin: int, gap: int, parts: int)
    requires
        0 <= screen <= 0x7fff - PADDING,
        0 <= margin <= 24,
        12 <= gap <= 18,
        2 <= parts,
        roomy(screen, margin, gap, parts),
    ensures
        shared_side(screen, margin, gap, parts).0 + gap < 0x8000,
{
    lemma_side_is_used(screen, margin, gap, parts);
    let cell = shared_side(screen, margin, gap, parts).0;
    assert(cell * parts >= 2 * cell && gap * (parts - 1) >= gap && cell >= 0) by (nonlinear_arith)
        requires
            parts >= 2,
            gap >= 0,
            cell >= 1,
    ;
}

/// A preview stands in the middle of what its cell leaves for it: twelve pixels are kept free
/// all around, and 34 below for the label. It is as wide as that, or as high.
pub proof fn law_previews_stand_in_the_middle(grid: Grid, index: int, source: (nat, nat))
    requires
        grid.item_holds(index, source),
        grid.cell_width >= 24,
        grid.cell_height >= 58,
    ensures
        ({
            let item = grid.item(index, source);
            let left = item.preview.x - item.cell.x - 12;
            let right = item.cell.x + item.cell.width - 12 - item.preview.x - item.preview.width;
            let above = item.preview.y - item.cell.y - 12;
            let below = item.cell.y + item.cell.height - 34 - 12 - item.preview.y
                - item.preview.height;
            &&& item.cell == grid.cell(index)
            &&& 0 <= left <= right <= left + 1
            &&& 0 <= above <= below <= above + 1
            &&& item.preview.width == item.cell.width - 24 || item.preview.height
                == item.cell.height - 58
        }),
{
    law_fit_stays_inside(grid.preview_area(index), at_least_one(source));
}

/// A preview keeps the proportions of its window: it is as wide or as high as its cell lets it
/// be, and the other side is less than a pixel away from what the window's size asks for.
pub proof fn law_previews_keep_the_proportions(grid: Grid, index: int, window: WindowInfo)
    requires
        grid.item_holds(index, source_size(window)),
        grid.cell_width > 24,
        grid.cell_height > 58,
        window.geometry.width > 0,
        window.geometry.height > 0,
    ensures
        ({
            let preview = grid.item(index, source_size(window)).preview;
            let (across, down) = (window.geometry.width, window.geometry.height);
            ||| preview.width == grid.cell_width - 24 && -across < preview.height * across
                - preview.width * down < across
            ||| preview.height == grid.cell_height - 58 && -down < preview.width * down
                - preview.height * across < down
        }),
{
    let area = grid.preview_area(index);
    law_fit_keeps_the_proportions(
        (area.width, area.height),
        (window.geometry.width, window.geometry.height),
    );
    law_fit_stays_inside(area, at_least_one(source_size(window)));
}

/// A preview of a window without size is that of a window of one pixel each way that it lacks.
pub proof fn law_missing_sizes_count_as_one_pixel(width: nat, height: nat)
    ensures
        width > 0 && height > 0 ==> at_least_one((width, height)) == (width, height),
        at_least_one((0, height)).0 == 1,
        at_least_one((width, 0)).1 == 1,
{
}

/// On a screen that is a whole number of times as wide as it is high there are as many columns as
/// make the cells square: the smallest number whose square reaches that many times the windows,
/// as long as there are so many windows.
pub proof fn law_columns_make_square_cells(
    count: nat,
    times: nat,
    screen_height: nat,
    columns: nat,
)
    requires
        3 < count,
        0 < times,
        0 < screen_height,
        times * screen_height <= 0xffff,
        count * times < 0x10_0000,
        0 < columns,
        (columns - 1) * (columns - 1) < count * times <= columns * columns,
    ensures
        grid_shape(count, times * screen_height, screen_height).0 == min(
            columns as int,
            count as int,
        ),
{
    single::law_scaled_root_is_the_root_of_the_product(
        count,
        times,
        screen_height,
        (columns - 1) as nat,
    );
}

/// An area without pixels stays as it is; a source without height is drawn as a line across the
/// area, and one without width as a line down.
pub proof fn law_sources_without_size_are_lines(area: (nat, nat), source: (nat, nat))
    ensures
        area.0 == 0 || area.1 == 0 ==> fitted_size(area, source) == (area.0 as int, area.1 as int),
        area.0 > 0 && area.1 > 0 && source.0 > 0 ==> fitted_size(area, (source.0, 0)) == (
            area.0 as int,
            1int,
        ),
        area.0 > 0 && area.1 > 0 ==> fitted_size(area, (0, 0)) == (1int, area.1 as int),
{
}

}
