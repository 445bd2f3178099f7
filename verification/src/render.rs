//! Drawing the overview: what a frame is made of, and what is set up on the server and given
//! back.

use vstd::prelude::*;

use crate::layout;
use crate::layout::{Layout, LayoutItem, Rect};
use crate::text;
use crate::windows::WindowInfo;
use crate::x11;
use crate::x11::Fault;

verus! {

pub const COLOR_BACKGROUND: u32 = 0x101418;

pub const COLOR_CELL: u32 = 0x202832;

pub const COLOR_CELL_HOVER: u32 = 0x2b3642;

pub const COLOR_BORDER: u32 = 0x5f6f7f;

pub const COLOR_SELECTED: u32 = 0x4ea1ff;

pub const COLOR_TEXT: u32 = 0xe8edf2;

pub const COLOR_ERROR: u32 = 0x66303a;

/// The most characters of a text that are drawn.
pub const LABEL_LENGTH: usize = 96;

/// What something is drawn in.
#[derive(Debug, Clone, Copy, PartialEq, Eq, Structural)]
pub enum Shade {
    Background,
    Cell,
    CellHover,
    Border,
    Selected,
    Text,
    Error,
}

impl Shade {
    /// The foreground and the background of a shade.
    pub open spec fn spec_colors(self) -> (u32, u32) {
        match self {
            Shade::Background => (COLOR_BACKGROUND, COLOR_BACKGROUND),
            Shade::Cell => (COLOR_CELL, COLOR_CELL),
            Shade::CellHover => (COLOR_CELL_HOVER, COLOR_CELL_HOVER),
            Shade::Border => (COLOR_BORDER, COLOR_BORDER),
            Shade::Selected => (COLOR_SELECTED, COLOR_SELECTED),
            Shade::Text => (COLOR_TEXT, COLOR_BACKGROUND),
            Shade::Error => (COLOR_ERROR, COLOR_ERROR),
        }
    }

    /// The shade that is set up after this one.
    pub open spec fn following(self) -> Option<Shade> {
        match self {
            Shade::Background => Some(Shade::Cell),
            Shade::Cell => Some(Shade::CellHover),
            Shade::CellHover => Some(Shade::Border),
            Shade::Border => Some(Shade::Selected),
            Shade::Selected => Some(Shade::Text),
            Shade::Text => Some(Shade::Error),
            Shade::Error => None,
        }
    }

    /// The foreground and the background of a shade.
    pub fn colors(self) -> (colors: (u32, u32))
        ensures
            colors == self.spec_colors(),
    {
        match self {
            Shade::Background => (COLOR_BACKGROUND, COLOR_BACKGROUND),
            Shade::Cell => (COLOR_CELL, COLOR_CELL),
            Shade::CellHover => (COLOR_CELL_HOVER, COLOR_CELL_HOVER),
            Shade::Border => (COLOR_BORDER, COLOR_BORDER),
            Shade::Selected => (COLOR_SELECTED, COLOR_SELECTED),
            Shade::Text => (COLOR_TEXT, COLOR_BACKGROUND),
            Shade::Error => (COLOR_ERROR, COLOR_ERROR),
        }
    }

    /// The shade that is set up after this one.
    pub fn next(self) -> (shade: Option<Shade>)
        ensures
            shade == self.following(),
    {
        match self {
            Shade::Background => Some(Shade::Cell),
            Shade::Cell => Some(Shade::CellHover),
            Shade::CellHover => Some(Shade::Border),
            Shade::Border => Some(Shade::Selected),
            Shade::Selected => Some(Shade::Text),
            Shade::Text => Some(Shade::Error),
            Shade::Error => None,
        }
    }
}

/// The graphics contexts of the shades, and the font that they share.
#[derive(Debug, Clone, Copy, PartialEq, Eq, Structural)]
pub struct Gcs {
    pub background: u32,
    pub cell: u32,
    pub cell_hover: u32,
    pub border: u32,
    pub selected: u32,
    pub text: u32,
    pub error: u32,
    pub font: u32,
}

impl Gcs {
    /// The graphics context of a shade.
    pub open spec fn of(self, shade: Shade) -> u32 {
        match shade {
            Shade::Background => self.background,
            Shade::Cell => self.cell,
            Shade::CellHover => self.cell_hover,
            Shade::Border => self.border,
            Shade::Selected => self.selected,
            Shade::Text => self.text,
            Shade::Error => self.error,
        }
    }

    /// With another graphics context for a shade.
    pub open spec fn with(self, shade: Shade, gc: u32) -> Gcs {
        match shade {
            Shade::Background => Gcs { background: gc, ..self },
            Shade::Cell => Gcs { cell: gc, ..self },
            Shade::CellHover => Gcs { cell_hover: gc, ..self },
            Shade::Border => Gcs { border: gc, ..self },
            Shade::Selected => Gcs { selected: gc, ..self },
            Shade::Text => Gcs { text: gc, ..self },
            Shade::Error => Gcs { error: gc, ..self },
        }
    }

    /// The graphics context of a shade.
    pub fn get(&self, shade: Shade) -> (gc: u32)
        ensures
            gc == self.of(shade),
    {
        match shade {
            Shade::Background => self.background,
            Shade::Cell => self.cell,
            Shade::CellHover => self.cell_hover,
            Shade::Border => self.border,
            Shade::Selected => self.selected,
            Shade::Text => self.text,
            Shade::Error => self.error,
        }
    }

    /// Sets the graphics context of a shade.
    pub fn put(&mut self, shade: Shade, gc: u32)
        ensures
            *final(self) == old(self).with(shade, gc),
    {
        match shade {
            Shade::Background => self.background = gc,
            Shade::Cell => self.cell = gc,
            Shade::CellHover => self.cell_hover = gc,
            Shade::Border => self.border = gc,
            Shade::Selected => self.selected = gc,
            Shade::Text => self.text = gc,
            Shade::Error => self.error = gc,
        }
    }
}

/// The window that covers the screen.
#[derive(Debug, Clone, Copy, PartialEq, Eq, Structural)]
pub struct Overlay {
    pub window: u32,
    pub picture: u32,
    pub gcs: Gcs,
    pub width: u16,
    pub height: u16,
}

impl Overlay {
    /// All of the screen.
    pub open spec fn area(self) -> Rect {
        Rect { x: 0, y: 0, width: self.width, height: self.height }
    }
}

/// The picture of a window on the server.
#[derive(Debug, Clone, Copy, PartialEq, Eq, Structural)]
pub struct Thumbnail {
    pub pixmap: u32,
    pub picture: u32,
    pub width: u16,
    pub height: u16,
}

/// What there is to show of a window.
#[derive(Debug)]
pub enum ThumbnailState {
    Ready(Thumbnail),
    Error(String),
}

/// A window's thumbnail, and whether the window is redirected for it.
#[derive(Debug)]
pub struct ThumbnailSlot {
    pub window: u32,
    pub redirected: bool,
    pub state: ThumbnailState,
}

/// A visual, and the format of pictures that show it.
#[derive(Debug, Clone, Copy, PartialEq, Eq, Structural)]
pub struct PictVisual {
    pub visual: u32,
    pub format: u32,
}

/// The visuals of depths, one after the other.
pub open spec fn visuals_of_depths(depths: Seq<Vec<PictVisual>>) -> Seq<PictVisual>
    decreases depths.len(),
{
    if depths.len() == 0 {
        seq![]
    } else {
        visuals_of_depths(depths.drop_last()) + depths.last()@
    }
}

/// The visuals of screens, one after the other.
pub open spec fn visuals_of_screens(screens: Seq<Vec<Vec<PictVisual>>>) -> Seq<PictVisual>
    decreases screens.len(),
{
    if screens.len() == 0 {
        seq![]
    } else {
        visuals_of_screens(screens.drop_last()) + visuals_of_depths(screens.last()@)
    }
}

/// The format of the first entry of a visual.
pub open spec fn format_of(visuals: Seq<PictVisual>, visual: u32) -> Option<u32>
    decreases visuals.len(),
{
    if visuals.len() == 0 {
        None
    } else {
        match format_of(visuals.drop_last(), visual) {
            Some(format) => Some(format),
            None => {
                if visuals.last().visual == visual {
                    Some(visuals.last().format)
                } else {
                    None
                }
            },
        }
    }
}

proof fn lemma_format_of_concat(first: Seq<PictVisual>, second: Seq<PictVisual>, visual: u32)
    ensures
        format_of(first + second, visual) == (match format_of(first, visual) {
            Some(format) => Some(format),
            None => format_of(second, visual),
        }),
    decreases second.len(),
{
    if second.len() == 0 {
        assert(first + second =~= first);
    } else {
        lemma_format_of_concat(first, second.drop_last(), visual);
        assert((first + second).drop_last() =~= first + second.drop_last());
    }
}

fn format_in_visuals(visuals: &Vec<PictVisual>, visual: u32) -> (format: Option<u32>)
    ensures
        format == format_of(visuals@, visual),
{
    let mut i: usize = 0;
    assert(visuals@.take(0) =~= seq![]);
    while i < visuals.len()
        invariant
            i <= visuals@.len(),
            format_of(visuals@.take(i as int), visual) is None,
        decreases visuals@.len() - i,
    {
        assert(visuals@.take(i + 1).drop_last() =~= visuals@.take(i as int));
        if visuals[i].visual == visual {
            proof {
                lemma_format_of_concat(visuals@.take(i + 1), visuals@.skip(i + 1), visual);
                assert(visuals@.take(i + 1) + visuals@.skip(i + 1) =~= visuals@);
            }
            return Some(visuals[i].format);
        }
        i += 1;
    }
    assert(visuals@.take(i as int) =~= visuals@);
    None
}

fn format_in_depths(depths: &Vec<Vec<PictVisual>>, visual: u32) -> (format: Option<u32>)
    ensures
        format == format_of(visuals_of_depths(depths@), visual),
{
    let mut i: usize = 0;
    let mut found: Option<u32> = None;
    assert(depths@.take(0) =~= seq![]);
    while i < depths.len()
        invariant
            i <= depths@.len(),
            found == format_of(visuals_of_depths(depths@.take(i as int)), visual),
        decreases depths@.len() - i,
    {
        proof {
            assert(depths@.take(i + 1).drop_last() =~= depths@.take(i as int));
            lemma_format_of_concat(
                visuals_of_depths(depths@.take(i as int)),
                depths@[i as int]@,
                visual,
            );
        }
        if found.is_none() {
            found = format_in_visuals(&depths[i], visual);
        }
        i += 1;
    }
    assert(depths@.take(i as int) =~= depths@);
    found
}

/// The format of pictures that show a visual: for each screen, the visuals of its depths.
pub fn pict_format_for_visual(screens: &Vec<Vec<Vec<PictVisual>>>, visual: u32) -> (format: Option<
    u32,
>)
    ensures
        format == format_of(visuals_of_screens(screens@), visual),
{
    let mut i: usize = 0;
    let mut found: Option<u32> = None;
    assert(screens@.take(0) =~= seq![]);
    while i < screens.len()
        invariant
            i <= screens@.len(),
            found == format_of(visuals_of_screens(screens@.take(i as int)), visual),
        decreases screens@.len() - i,
    {
        proof {
            assert(screens@.take(i + 1).drop_last() =~= screens@.take(i as int));
            lemma_format_of_concat(
                visuals_of_screens(screens@.take(i as int)),
                visuals_of_depths(screens@[i as int]@),
                visual,
            );
        }
        if found.is_none() {
            found = format_in_depths(&screens[i], visual);
        }
        i += 1;
    }
    assert(screens@.take(i as int) =~= screens@);
    found
}

/// The ratio of two lengths in units of `1 / 65536`, of which the low 32 bits are kept; one for
/// no destination.
pub open spec fn ratio(source: u16, destination: u16) -> int {
    if destination == 0 {
        0x1_0000
    } else {
        let units = source * 0x1_0000 / destination as int;
        if units < 0x8000_0000 {
            units
        } else {
            units - 0x1_0000_0000
        }
    }
}

/// The ratio of two lengths as a fixed-point number.
pub fn fixed_ratio(source: u16, destination: u16) -> (result: i32)
    ensures
        result == ratio(source, destination),
{
    if destination == 0 {
        return 0x1_0000;
    }
    let units: i64 = (source as i64 * 0x1_0000) / destination as i64;
    assert(0 <= units <= 0xffff_0000) by (nonlinear_arith)
        requires
            0 <= source <= 0xffff,
            1 <= destination <= 0xffff,
            units == (source * 0x1_0000) / destination as int,
    ;
    if units < 0x8000_0000 {
        units as i32
    } else {
        (units - 0x1_0000_0000) as i32
    }
}

/// A character that a core font draws.
pub open spec fn drawable_char(ch: char) -> bool {
    ' ' <= ch <= '~'
}

/// The bytes that are drawn for a text: at most `limit` of them, and one question mark for each
/// run of characters that cannot be drawn.
pub open spec fn label_of(text: Seq<char>, limit: nat) -> Seq<u8>
    decreases text.len(),
{
    if text.len() == 0 {
        seq![]
    } else {
        let before = label_of(text.drop_last(), limit);
        let ch = text.last();
        if before.len() >= limit {
            before
        } else if drawable_char(ch) {
            before.push(ch as u8)
        } else if before.len() > 0 && before.last() == 0x3fu8 {
            before
        } else {
            before.push(0x3fu8)
        }
    }
}

/// The bytes that are drawn for a text.
pub fn ascii_label(text: &str, max: usize) -> (label: Vec<u8>)
    ensures
        label@ == label_of(text@, max as nat),
{
    let chars: Vec<char> = text::chars_of(text);
    let mut label: Vec<u8> = Vec::new();
    let mut i: usize = 0;
    assert(text@.take(0) =~= seq![]);
    while i < chars.len()
        invariant
            i <= chars@.len(),
            chars@ == text@,
            label@ == label_of(text@.take(i as int), max as nat),
        decreases chars@.len() - i,
    {
        assert(text@.take(i + 1).drop_last() =~= text@.take(i as int));
        let ch: char = chars[i];
        if label.len() < max {
            if ' ' <= ch && ch <= '~' {
                label.push((ch as u32) as u8);
            } else if label.len() > 0 && label[label.len() - 1] == 0x3f {
            } else {
                label.push(0x3f);
            }
        }
        i += 1;
    }
    assert(text@.take(i as int) =~= text@);
    label
}

/// A label is no longer than its limit, and every byte of it is printable ASCII.
pub proof fn law_labels_are_short_and_printable(text: Seq<char>, limit: nat)
    ensures
        label_of(text, limit).len() <= limit,
        forall|i: int|
            0 <= i < label_of(text, limit).len() ==> 0x20 <= #[trigger] label_of(text, limit)[i]
                <= 0x7e,
    decreases text.len(),
{
    if text.len() > 0 {
        law_labels_are_short_and_printable(text.drop_last(), limit);
    }
}

proof fn lemma_printable_label(text: Seq<char>, limit: nat)
    requires
        forall|i: int| 0 <= i < text.len() ==> drawable_char(#[trigger] text[i]),
    ensures
        label_of(text, limit).len() == layout::min(text.len() as int, limit as int),
        forall|i: int|
            0 <= i < label_of(text, limit).len() ==> #[trigger] label_of(text, limit)[i]
                == text[i] as u8,
    decreases text.len(),
{
    if text.len() > 0 {
        lemma_printable_label(text.drop_last(), limit);
        assert(drawable_char(text[text.len() - 1]));
    }
}

/// A text of printable ASCII is drawn as it is, as far as the limit goes.
pub proof fn law_printable_text_is_drawn_as_it_is(text: Seq<char>, limit: nat)
    requires
        forall|i: int| 0 <= i < text.len() ==> drawable_char(#[trigger] text[i]),
    ensures
        label_of(text, limit) == text.take(
            layout::min(text.len() as int, limit as int),
        ).map_values(|ch: char| ch as u8),
{
    lemma_printable_label(text, limit);
    assert(label_of(text, limit) =~= text.take(
        layout::min(text.len() as int, limit as int),
    ).map_values(|ch: char| ch as u8));
}

/// One step of drawing a frame.
#[derive(Debug)]
pub enum DrawOp {
    Fill { rect: Rect, shade: Shade },
    /// The thumbnail of a slot, scaled by the two factors onto the rectangle.
    Thumbnail { slot: usize, rect: Rect, scale_x: i32, scale_y: i32 },
    Text { x: i16, y: i16, bytes: Vec<u8> },
}

/// One step of drawing a frame, with the bytes of a text as a sequence.
pub enum Step {
    Fill { rect: Rect, shade: Shade },
    Thumbnail { slot: int, rect: Rect, scale_x: int, scale_y: int },
    Text { x: int, y: int, bytes: Seq<u8> },
}

impl View for DrawOp {
    type V = Step;

    open spec fn view(&self) -> Step {
        match *self {
            DrawOp::Fill { rect, shade } => Step::Fill { rect, shade },
            DrawOp::Thumbnail { slot, rect, scale_x, scale_y } => {
                Step::Thumbnail {
                    slot: slot as int,
                    rect,
                    scale_x: scale_x as int,
                    scale_y: scale_y as int,
                }
            },
            DrawOp::Text { x, y, bytes } => Step::Text { x: x as int, y: y as int, bytes: bytes@ },
        }
    }
}

/// The steps of a list.
pub open spec fn steps(ops: Seq<DrawOp>) -> Seq<Step> {
    ops.map_values(|op: DrawOp| op@)
}

/// The rectangle has no pixels.
pub open spec fn hollow(rect: Rect) -> bool {
    rect.width == 0 || rect.height == 0
}

/// Filling a rectangle, if it has pixels.
pub open spec fn filled(rect: Rect, shade: Shade) -> Seq<Step> {
    if hollow(rect) {
        seq![]
    } else {
        seq![Step::Fill { rect, shade }]
    }
}

/// Writing a text, if any of it is drawn.
pub open spec fn written(x: int, y: int, text: Seq<char>) -> Seq<Step> {
    let bytes = label_of(text, LABEL_LENGTH as nat);
    if bytes.len() == 0 {
        seq![]
    } else {
        seq![Step::Text { x, y, bytes }]
    }
}

/// Drawing a thumbnail, if its rectangle has pixels.
pub open spec fn thumbnail_drawn(slot: int, thumbnail: Thumbnail, rect: Rect) -> Seq<Step> {
    if hollow(rect) {
        seq![]
    } else {
        seq![
            Step::Thumbnail {
                slot,
                rect,
                scale_x: ratio(thumbnail.width, rect.width),
                scale_y: ratio(thumbnail.height, rect.height),
            },
        ]
    }
}

/// Half of a height, which is read as a signed number, towards zero.
pub open spec fn half(height: u16) -> int {
    let signed = layout::wrapped(height as int);
    if signed >= 0 {
        signed / 2
    } else {
        -((-signed) / 2)
    }
}

/// Drawing what went wrong in place of a thumbnail.
pub open spec fn error_drawn(rect: Rect, message: Seq<char>) -> Seq<Step> {
    filled(rect, Shade::Error) + written(
        rect.x + 8,
        rect.y + half(rect.height),
        "preview error: "@ + message,
    )
}

pub open spec fn error_holds(rect: Rect) -> bool {
    layout::holds(rect.x + 8) && layout::holds(rect.y + half(rect.height))
}

/// Drawing what a slot shows; a window without a slot shows that it has none.
pub open spec fn preview_drawn(slots: Seq<ThumbnailSlot>, index: int, rect: Rect) -> Seq<Step> {
    if index < slots.len() {
        match slots[index].state {
            ThumbnailState::Ready(thumbnail) => thumbnail_drawn(index, thumbnail, rect),
            ThumbnailState::Error(message) => error_drawn(rect, message@),
        }
    } else {
        error_drawn(rect, "preview missing"@)
    }
}

pub open spec fn preview_holds(slots: Seq<ThumbnailSlot>, index: int, rect: Rect) -> bool {
    index < slots.len() && slots[index].state is Ready || error_holds(rect)
}

/// The baseline of a cell's label: eleven pixels above its lower edge.
pub open spec fn label_y(cell: Rect) -> int {
    layout::saturated(layout::saturated(cell.y + layout::wrapped(cell.height as int)) - 11)
}

/// Drawing the name of a window.
pub open spec fn label_drawn(cell: Rect, name: Seq<char>) -> Seq<Step> {
    written(cell.x + 10, label_y(cell), name)
}

/// How thick a border is.
pub open spec fn thickness(selected: bool) -> int {
    if selected {
        4
    } else {
        2
    }
}

/// The pieces of a border: along the upper, the lower, the left and the right edge.
pub open spec fn border_piece(rect: Rect, selected: bool, piece: int) -> Rect {
    let thick = thickness(selected) as u16;
    let right = (rect.x + layout::wrapped(rect.width as int) - thick) as i16;
    let bottom = (rect.y + layout::wrapped(rect.height as int) - thick) as i16;
    if piece == 0 {
        Rect { x: rect.x, y: rect.y, width: rect.width, height: thick }
    } else if piece == 1 {
        Rect { x: rect.x, y: bottom, width: rect.width, height: thick }
    } else if piece == 2 {
        Rect { x: rect.x, y: rect.y, width: thick, height: rect.height }
    } else {
        Rect { x: right, y: rect.y, width: thick, height: rect.height }
    }
}

/// Drawing the border of a cell.
pub open spec fn border_drawn(rect: Rect, selected: bool) -> Seq<Step> {
    let shade = if selected {
        Shade::Selected
    } else {
        Shade::Border
    };
    filled(border_piece(rect, selected, 0), shade) + filled(border_piece(rect, selected, 1), shade)
        + filled(border_piece(rect, selected, 2), shade) + filled(
        border_piece(rect, selected, 3),
        shade,
    )
}

pub open spec fn border_holds(rect: Rect, selected: bool) -> bool {
    &&& layout::holds(rect.x + layout::wrapped(rect.width as int))
    &&& layout::holds(rect.y + layout::wrapped(rect.height as int))
    &&& layout::holds(rect.x + layout::wrapped(rect.width as int) - thickness(selected))
    &&& layout::holds(rect.y + layout::wrapped(rect.height as int) - thickness(selected))
}

/// Drawing one window: its cell, its thumbnail, its name and its border.
pub open spec fn item_drawn(
    slots: Seq<ThumbnailSlot>,
    index: int,
    item: LayoutItem,
    name: Seq<char>,
    selected: bool,
) -> Seq<Step> {
    filled(
        item.cell,
        if selected {
            Shade::CellHover
        } else {
            Shade::Cell
        },
    ) + preview_drawn(slots, index, item.preview) + label_drawn(item.cell, name) + border_drawn(
        item.cell,
        selected,
    )
}

/// Every coordinate of the drawing of one window can be held.
pub open spec fn item_holds(
    slots: Seq<ThumbnailSlot>,
    index: int,
    item: LayoutItem,
    selected: bool,
) -> bool {
    &&& preview_holds(slots, index, item.preview)
    &&& layout::holds(item.cell.x + 10)
    &&& border_holds(item.cell, selected)
}

/// Drawing the first `count` windows.
pub open spec fn items_drawn(
    slots: Seq<ThumbnailSlot>,
    windows: Seq<WindowInfo>,
    items: Seq<LayoutItem>,
    selected: usize,
    count: nat,
) -> Seq<Step>
    decreases count,
{
    if count == 0 {
        seq![]
    } else {
        let index = count - 1;
        items_drawn(slots, windows, items, selected, index as nat) + item_drawn(
            slots,
            index,
            items[index],
            windows[index].name@,
            index == selected,
        )
    }
}

/// How many windows have both a name and a cell.
pub open spec fn paired(windows: nat, items: nat) -> nat {
    if windows <= items {
        windows
    } else {
        items
    }
}

/// Drawing a frame: the background, and then each window.
pub open spec fn frame(
    overlay: Overlay,
    slots: Seq<ThumbnailSlot>,
    windows: Seq<WindowInfo>,
    items: Seq<LayoutItem>,
    selected: usize,
) -> Seq<Step> {
    filled(overlay.area(), Shade::Background) + items_drawn(
        slots,
        windows,
        items,
        selected,
        paired(windows.len(), items.len()),
    )
}

/// Every coordinate of a frame can be held.
pub open spec fn frame_holds(
    slots: Seq<ThumbnailSlot>,
    windows: Seq<WindowInfo>,
    items: Seq<LayoutItem>,
    selected: usize,
) -> bool {
    forall|i: int|
        0 <= i < paired(windows.len(), items.len()) ==> item_holds(
            slots,
            i,
            #[trigger] items[i],
            i == selected,
        )
}

fn push_fill(ops: &mut Vec<DrawOp>, rect: Rect, shade: Shade)
    ensures
        steps(final(ops)@) == steps(old(ops)@) + filled(rect, shade),
{
    if rect.width > 0 && rect.height > 0 {
        ops.push(DrawOp::Fill { rect, shade });
    }
    assert(steps(ops@) =~= steps(old(ops)@) + filled(rect, shade));
}

fn push_text(ops: &mut Vec<DrawOp>, x: i16, y: i16, text: &str)
    ensures
        steps(final(ops)@) == steps(old(ops)@) + written(x as int, y as int, text@),
{
    let bytes: Vec<u8> = ascii_label(text, LABEL_LENGTH);
    if bytes.len() > 0 {
        ops.push(DrawOp::Text { x, y, bytes });
    }
    assert(steps(ops@) =~= steps(old(ops)@) + written(x as int, y as int, text@));
}

fn push_thumbnail(ops: &mut Vec<DrawOp>, slot: usize, thumbnail: &Thumbnail, rect: Rect)
    ensures
        steps(final(ops)@) == steps(old(ops)@) + thumbnail_drawn(slot as int, *thumbnail, rect),
{
    if rect.width > 0 && rect.height > 0 {
        let scale_x: i32 = fixed_ratio(thumbnail.width, rect.width);
        let scale_y: i32 = fixed_ratio(thumbnail.height, rect.height);
        ops.push(DrawOp::Thumbnail { slot, rect, scale_x, scale_y });
    }
    assert(steps(ops@) =~= steps(old(ops)@) + thumbnail_drawn(slot as int, *thumbnail, rect));
}

/// The number as a coordinate, if it can be one.
fn coordinate(number: i32) -> (result: Option<i16>)
    ensures
        result == (if layout::holds(number as int) {
            Some(number as i16)
        } else {
            None
        }),
{
    if -0x8000 <= number && number <= 0x7fff {
        Some(number as i16)
    } else {
        None
    }
}

fn push_error(ops: &mut Vec<DrawOp>, rect: Rect, message: &str) -> (done: bool)
    ensures
        done == error_holds(rect),
        done ==> steps(final(ops)@) == steps(old(ops)@) + error_drawn(rect, message@),
{
    let signed: i32 = layout::wrap(rect.height) as i32;
    let half: i32 = if signed >= 0 {
        signed / 2
    } else {
        -((-signed) / 2)
    };
    match (coordinate(rect.x as i32 + 8), coordinate(rect.y as i32 + half)) {
        (Some(x), Some(y)) => {
            push_fill(ops, rect, Shade::Error);
            let mut label: String = "preview error: ".to_owned();
            label.append(message);
            push_text(ops, x, y, label.as_str());
            assert(steps(ops@) =~= steps(old(ops)@) + error_drawn(rect, message@));
            true
        },
        _ => false,
    }
}

fn push_preview(ops: &mut Vec<DrawOp>, slots: &Vec<ThumbnailSlot>, index: usize, rect: Rect) -> (
    done: bool)
    ensures
        done == preview_holds(slots@, index as int, rect),
        done ==> steps(final(ops)@) == steps(old(ops)@) + preview_drawn(
            slots@,
            index as int,
            rect,
        ),
{
    if index < slots.len() {
        match &slots[index].state {
            ThumbnailState::Ready(thumbnail) => {
                push_thumbnail(ops, index, thumbnail, rect);
                true
            },
            ThumbnailState::Error(message) => push_error(ops, rect, message.as_str()),
        }
    } else {
        push_error(ops, rect, "preview missing")
    }
}

fn push_border(ops: &mut Vec<DrawOp>, rect: Rect, selected: bool) -> (done: bool)
    ensures
        done == border_holds(rect, selected),
        done ==> steps(final(ops)@) == steps(old(ops)@) + border_drawn(rect, selected),
{
    let thick: u16 = if selected {
        4
    } else {
        2
    };
    let shade: Shade = if selected {
        Shade::Selected
    } else {
        Shade::Border
    };
    let width: i32 = layout::wrap(rect.width) as i32;
    let height: i32 = layout::wrap(rect.height) as i32;
    let right: i32 = rect.x as i32 + width;
    let bottom: i32 = rect.y as i32 + height;
    if coordinate(right).is_none() || coordinate(bottom).is_none() {
        return false;
    }
    match (coordinate(right - thick as i32), coordinate(bottom - thick as i32)) {
        (Some(right), Some(bottom)) => {
            push_fill(ops, Rect { x: rect.x, y: rect.y, width: rect.width, height: thick }, shade);
            push_fill(ops, Rect { x: rect.x, y: bottom, width: rect.width, height: thick }, shade);
            push_fill(ops, Rect { x: rect.x, y: rect.y, width: thick, height: rect.height }, shade);
            push_fill(ops, Rect { x: right, y: rect.y, width: thick, height: rect.height }, shade);
            assert(steps(ops@) =~= steps(old(ops)@) + border_drawn(rect, selected));
            true
        },
        _ => false,
    }
}

fn push_label(ops: &mut Vec<DrawOp>, cell: Rect, name: &str) -> (done: bool)
    ensures
        done == layout::holds(cell.x + 10),
        done ==> steps(final(ops)@) == steps(old(ops)@) + label_drawn(cell, name@),
{
    let bottom: i16 = layout::saturate(cell.y as i32 + layout::wrap(cell.height) as i32);
    let y: i16 = layout::saturate(bottom as i32 - 11);
    match coordinate(cell.x as i32 + 10) {
        Some(x) => {
            push_text(ops, x, y, name);
            true
        },
        None => false,
    }
}

fn push_item(
    ops: &mut Vec<DrawOp>,
    slots: &Vec<ThumbnailSlot>,
    index: usize,
    item: LayoutItem,
    name: &str,
    selected: bool,
) -> (done: bool)
    ensures
        done == item_holds(slots@, index as int, item, selected),
        done ==> steps(final(ops)@) == steps(old(ops)@) + item_drawn(
            slots@,
            index as int,
            item,
            name@,
            selected,
        ),
{
    let shade: Shade = if selected {
        Shade::CellHover
    } else {
        Shade::Cell
    };
    push_fill(ops, item.cell, shade);
    if !push_preview(ops, slots, index, item.preview) {
        return false;
    }
    if !push_label(ops, item.cell, name) {
        return false;
    }
    if !push_border(ops, item.cell, selected) {
        return false;
    }
    assert(steps(ops@) =~= steps(old(ops)@) + item_drawn(
        slots@,
        index as int,
        item,
        name@,
        selected,
    ));
    true
}

fn plan_frame(
    overlay: &Overlay,
    slots: &Vec<ThumbnailSlot>,
    windows: &[WindowInfo],
    layout: &Layout,
    selected: usize,
) -> (plan: Option<Vec<DrawOp>>)
    ensures
        plan is Some <==> frame_holds(slots@, windows@, layout.items@, selected),
        plan is Some ==> steps(plan->0@) == frame(
            *overlay,
            slots@,
            windows@,
            layout.items@,
            selected,
        ),
{
    let mut ops: Vec<DrawOp> = Vec::new();
    assert(steps(ops@) =~= seq![]);
    let area: Rect = Rect { x: 0, y: 0, width: overlay.width, height: overlay.height };
    push_fill(&mut ops, area, Shade::Background);
    let ghost background = steps(ops@);
    let count: usize = if windows.len() <= layout.items.len() {
        windows.len()
    } else {
        layout.items.len()
    };
    let mut i: usize = 0;
    assert(background + items_drawn(slots@, windows@, layout.items@, selected, 0) =~= background);
    while i < count
        invariant
            count == paired(windows@.len(), layout.items@.len()),
            i <= count,
            steps(ops@) == background + items_drawn(
                slots@,
                windows@,
                layout.items@,
                selected,
                i as nat,
            ),
            forall|j: int|
                0 <= j < i ==> item_holds(
                    slots@,
                    j,
                    #[trigger] layout.items@[j],
                    j == selected,
                ),
        decreases count - i,
    {
        let ghost before = steps(ops@);
        let item: LayoutItem = layout.items[i];
        if !push_item(&mut ops, slots, i, item, windows[i].name.as_str(), i == selected) {
            assert(!item_holds(slots@, i as int, layout.items@[i as int], i == selected));
            return None;
        }
        assert(steps(ops@) =~= background + items_drawn(
            slots@,
            windows@,
            layout.items@,
            selected,
            (i + 1) as nat,
        ));
        i += 1;
    }
    assert(background =~= filled(overlay.area(), Shade::Background));
    Some(ops)
}

/// What is drawn, and what it is drawn on.
#[derive(Debug)]
pub struct Renderer {
    pub overlay: Overlay,
    pub thumbnails: Vec<ThumbnailSlot>,
}

impl Renderer {
    /// With another size.
    pub open spec fn with_size(self, width: u16, height: u16) -> Renderer {
        Renderer { overlay: Overlay { width, height, ..self.overlay }, ..self }
    }

    /// What is drawn has not that size.
    pub open spec fn has_other_size(self, width: u16, height: u16) -> bool {
        self.overlay.width != width || self.overlay.height != height
    }

    /// `next` is the renderer with another thumbnail in a slot.
    pub open spec fn replaces(self, index: int, state: ThumbnailState, next: Renderer) -> bool {
        &&& next.overlay == self.overlay
        &&& next.thumbnails@ == self.thumbnails@.update(
            index,
            ThumbnailSlot { window: self.thumbnails@[index].window, redirected: false, state },
        )
    }

    /// The window that is drawn on.
    pub fn overlay_window(&self) -> (window: u32)
        ensures
            window == self.overlay.window,
    {
        self.overlay.window
    }

    /// The size that is drawn.
    pub fn size(&self) -> (size: (u16, u16))
        ensures
            size == (self.overlay.width, self.overlay.height),
    {
        (self.overlay.width, self.overlay.height)
    }

    /// Takes another size.
    pub fn update_size(&mut self, width: u16, height: u16)
        ensures
            *final(self) == (Renderer {
                overlay: Overlay { width, height, ..old(self).overlay },
                ..*old(self)
            }),
            *final(self) == old(self).with_size(width, height),
    {
        self.overlay.width = width;
        self.overlay.height = height;
    }

    /// Takes the size of the root window, and says whether it is another one.
    pub fn sync_root_size(&mut self, width: u16, height: u16) -> (resized: bool)
        ensures
            resized == (old(self).overlay.width != width || old(self).overlay.height != height),
            *final(self) == (Renderer {
                overlay: Overlay { width, height, ..old(self).overlay },
                ..*old(self)
            }),
            resized == old(self).has_other_size(width, height),
            *final(self) == old(self).with_size(width, height),
    {
        let resized: bool = self.overlay.width != width || self.overlay.height != height;
        self.update_size(width, height);
        resized
    }

    /// Whether every coordinate of the frame can be held.
    pub fn can_redraw(&self, windows: &[WindowInfo], layout: &Layout, selected: usize) -> (result:
        bool)
        ensures
            result == frame_holds(self.thumbnails@, windows@, layout.items@, selected),
    {
        plan_frame(&self.overlay, &self.thumbnails, windows, layout, selected).is_some()
    }

    /// How to draw a frame.
    pub fn redraw(&self, windows: &[WindowInfo], layout: &Layout, selected: usize) -> (ops: Vec<
        DrawOp,
    >)
        requires
            frame_holds(self.thumbnails@, windows@, layout.items@, selected),
        ensures
            steps(ops@) == frame(
                self.overlay,
                self.thumbnails@,
                windows@,
                layout.items@,
                selected,
            ),
    {
        plan_frame(&self.overlay, &self.thumbnails, windows, layout, selected).unwrap()
    }
}

/// On a screen with room, and a margin of coordinates past it, every frame can be drawn,
/// whatever the slots hold and whichever window is selected.
pub proof fn law_ordinary_frames_can_be_drawn(
    width: u16,
    height: u16,
    slots: Seq<ThumbnailSlot>,
    windows: Seq<WindowInfo>,
    items: Seq<LayoutItem>,
    selected: usize,
)
    requires
        width <= 0x7f00,
        height <= 0x7f00,
        layout::ordinary_screen(width, height, windows.len()),
        items.len() == windows.len(),
        forall|i: int|
            0 <= i < windows.len() ==> #[trigger] items[i] == layout::grid_of(
                width as nat,
                height as nat,
                windows.len(),
            ).item(i, layout::source_size(windows[i])),
    ensures
        frame_holds(slots, windows, items, selected),
{
    layout::law_ordinary_layouts_fit(width, height, windows);
    let grid = layout::grid_of(width as nat, height as nat, windows.len());
    assert forall|i: int| 0 <= i < paired(windows.len(), items.len()) implies item_holds(
        slots,
        i,
        #[trigger] items[i],
        i == selected,
    ) by {
        let source = layout::source_size(windows[i]);
        let cell = grid.cell(i);
        assert(grid.item_holds(i, source));
        layout::law_fit_stays_inside(grid.preview_area(i), layout::at_least_one(source));
        let preview = items[i].preview;
        assert(items[i].cell == cell);
    }
}

/// Something that is given back to the server.
#[derive(Debug, Clone, Copy, PartialEq, Eq, Structural)]
pub enum Release {
    UngrabKeyboard,
    Picture(u32),
    Pixmap(u32),
    Redirection(u32),
    Gc(u32),
    Font(u32),
    Window(u32),
}

/// What a slot gives back: its picture, the pixmap under it, and the redirection of its window.
pub open spec fn slot_released(slot: ThumbnailSlot) -> Seq<Release> {
    let held = match slot.state {
        ThumbnailState::Ready(thumbnail) => {
            seq![Release::Picture(thumbnail.picture), Release::Pixmap(thumbnail.pixmap)]
        },
        ThumbnailState::Error(_) => seq![],
    };
    if slot.redirected {
        held.push(Release::Redirection(slot.window))
    } else {
        held
    }
}

/// What slots give back, one after the other.
pub open spec fn slots_released(slots: Seq<ThumbnailSlot>) -> Seq<Release>
    decreases slots.len(),
{
    if slots.len() == 0 {
        seq![]
    } else {
        slots_released(slots.drop_last()) + slot_released(slots.last())
    }
}

/// What the overlay gives back.
pub open spec fn overlay_released(overlay: Overlay) -> Seq<Release> {
    let gcs = overlay.gcs;
    seq![
        Release::UngrabKeyboard,
        Release::Picture(overlay.picture),
        Release::Gc(gcs.background),
        Release::Gc(gcs.cell),
        Release::Gc(gcs.cell_hover),
        Release::Gc(gcs.border),
        Release::Gc(gcs.selected),
        Release::Gc(gcs.text),
        Release::Gc(gcs.error),
        Release::Font(gcs.font),
        Release::Window(overlay.window),
    ]
}

impl Overlay {
    /// What the overlay gives back.
    pub fn destroy(&self) -> (list: Vec<Release>)
        ensures
            list@ == overlay_released(*self),
    {
        let mut list: Vec<Release> = Vec::new();
        list.push(Release::UngrabKeyboard);
        list.push(Release::Picture(self.picture));
        list.push(Release::Gc(self.gcs.background));
        list.push(Release::Gc(self.gcs.cell));
        list.push(Release::Gc(self.gcs.cell_hover));
        list.push(Release::Gc(self.gcs.border));
        list.push(Release::Gc(self.gcs.selected));
        list.push(Release::Gc(self.gcs.text));
        list.push(Release::Gc(self.gcs.error));
        list.push(Release::Font(self.gcs.font));
        list.push(Release::Window(self.window));
        assert(list@ =~= overlay_released(*self));
        list
    }
}

fn release_slot(list: &mut Vec<Release>, slot: &ThumbnailSlot)
    ensures
        final(list)@ == old(list)@ + slot_released(*slot),
{
    match &slot.state {
        ThumbnailState::Ready(thumbnail) => {
            list.push(Release::Picture(thumbnail.picture));
            list.push(Release::Pixmap(thumbnail.pixmap));
        },
        ThumbnailState::Error(_) => {},
    }
    if slot.redirected {
        list.push(Release::Redirection(slot.window));
    }
    assert(list@ =~= old(list)@ + slot_released(*slot));
}

impl Renderer {
    /// What the renderer gives back at the end: the slots first, then the overlay.
    pub fn cleanup(&self) -> (list: Vec<Release>)
        ensures
            list@ == slots_released(self.thumbnails@) + overlay_released(self.overlay),
    {
        let mut list: Vec<Release> = Vec::new();
        let mut i: usize = 0;
        assert(self.thumbnails@.take(0) =~= seq![]);
        assert(list@ =~= seq![]);
        while i < self.thumbnails.len()
            invariant
                i <= self.thumbnails@.len(),
                list@ == slots_released(self.thumbnails@.take(i as int)),
            decreases self.thumbnails@.len() - i,
        {
            assert(self.thumbnails@.take(i + 1).drop_last() =~= self.thumbnails@.take(i as int));
            release_slot(&mut list, &self.thumbnails[i]);
            i += 1;
        }
        assert(self.thumbnails@.take(i as int) =~= self.thumbnails@);
        let mut rest: Vec<Release> = self.overlay.destroy();
        list.append(&mut rest);
        list
    }

    /// Puts another thumbnail, or what went wrong, in a slot. What the slot held before is to be
    /// given back; the redirection of its window ends with it.
    pub fn replace(&mut self, index: usize, state: ThumbnailState) -> (list: Vec<Release>)
        requires
            index < old(self).thumbnails@.len(),
        ensures
            list@ == slot_released(old(self).thumbnails@[index as int]),
            final(self).overlay == old(self).overlay,
            final(self).thumbnails@ == old(self).thumbnails@.update(
                index as int,
                ThumbnailSlot {
                    window: old(self).thumbnails@[index as int].window,
                    redirected: false,
                    state,
                },
            ),
            old(self).replaces(index as int, state, *final(self)),
    {
        let mut list: Vec<Release> = Vec::new();
        release_slot(&mut list, &self.thumbnails[index]);
        assert(list@ =~= slot_released(self.thumbnails@[index as int]));
        let window: u32 = self.thumbnails[index].window;
        self.thumbnails.set(index, ThumbnailSlot { window, redirected: false, state });
        list
    }
}

/// Everything that the slots and the overlay hold is given back in the end.
pub proof fn law_cleanup_gives_everything_back(renderer: Renderer, index: int)
    requires
        0 <= index < renderer.thumbnails@.len(),
    ensures
        ({
            let list = slots_released(renderer.thumbnails@) + overlay_released(renderer.overlay);
            let slot = renderer.thumbnails@[index];
            &&& slot.state matches ThumbnailState::Ready(thumbnail) ==> list.contains(
                Release::Picture(thumbnail.picture),
            ) && list.contains(Release::Pixmap(thumbnail.pixmap))
            &&& slot.redirected ==> list.contains(Release::Redirection(slot.window))
            &&& list.contains(Release::Window(renderer.overlay.window))
            &&& list.contains(Release::Picture(renderer.overlay.picture))
            &&& forall|shade: Shade| list.contains(
                Release::Gc(#[trigger] renderer.overlay.gcs.of(shade)),
            )
            &&& list.contains(Release::Font(renderer.overlay.gcs.font))
        }),
{
    let slots = renderer.thumbnails@;
    let first = slots_released(slots);
    let second = overlay_released(renderer.overlay);
    let list = first + second;
    let slot = slots[index];
    lemma_slot_in_list(slots, index);
    assert forall|release: Release| first.contains(release) || second.contains(release) implies
        #[trigger] list.contains(release) by {
        if first.contains(release) {
            let k = choose|k: int| 0 <= k < first.len() && first[k] == release;
            assert(list[k] == release);
        } else {
            let k = choose|k: int| 0 <= k < second.len() && second[k] == release;
            assert(list[first.len() + k] == release);
        }
    }
    let own = slot_released(slot);
    if slot.state is Ready {
        assert(own[0] == Release::Picture(slot.state->Ready_0.picture));
        assert(own[1] == Release::Pixmap(slot.state->Ready_0.pixmap));
    }
    if slot.redirected {
        assert(own[own.len() - 1] == Release::Redirection(slot.window));
    }
    assert(second[1] == Release::Picture(renderer.overlay.picture));
    assert(second[9] == Release::Font(renderer.overlay.gcs.font));
    assert(second[10] == Release::Window(renderer.overlay.window));
    assert forall|shade: Shade| list.contains(
        Release::Gc(#[trigger] renderer.overlay.gcs.of(shade)),
    ) by {
        let place: int = match shade {
            Shade::Background => 2,
            Shade::Cell => 3,
            Shade::CellHover => 4,
            Shade::Border => 5,
            Shade::Selected => 6,
            Shade::Text => 7,
            Shade::Error => 8,
        };
        assert(second[place] == Release::Gc(renderer.overlay.gcs.of(shade)));
    }
}

proof fn lemma_slot_in_list(slots: Seq<ThumbnailSlot>, index: int)
    requires
        0 <= index < slots.len(),
    ensures
        forall|release: Release|
            slot_released(slots[index]).contains(release) ==> slots_released(slots).contains(
                release,
            ),
    decreases slots.len(),
{
    let rest = slots_released(slots.drop_last());
    let last = slot_released(slots.last());
    let all = slots_released(slots);
    if index < slots.len() - 1 {
        lemma_slot_in_list(slots.drop_last(), index);
    }
    assert forall|release: Release| slot_released(slots[index]).contains(release) implies
        all.contains(release) by {
        if index < slots.len() - 1 {
            assert(rest.contains(release));
            let k = choose|k: int| 0 <= k < rest.len() && rest[k] == release;
            assert(all[k] == release);
        } else {
            let k = choose|k: int| 0 <= k < last.len() && last[k] == release;
            assert(all[rest.len() + k] == release);
        }
    }
}

/// Why a thumbnail could not be set up.
#[derive(Debug, Clone, Copy, PartialEq, Eq, Structural)]
pub enum ThumbnailError {
    NoFormat { visual: u32 },
    Redirect(Fault),
    AllocatePixmap,
    NamePixmap(Fault),
    AllocatePicture,
    CreatePicture(Fault),
}

impl ThumbnailError {
    /// What went wrong, in words.
    pub open spec fn spec_message(self) -> Seq<char> {
        match self {
            ThumbnailError::NoFormat { visual } => {
                "no XRender pict format for visual 0x"@ + text::hex(visual as nat, 8)
            },
            ThumbnailError::Redirect(Fault::Send) => "failed to request XComposite redirect"@,
            ThumbnailError::Redirect(Fault::Reply) => "XComposite rejected redirect for window"@,
            ThumbnailError::AllocatePixmap => "failed to allocate pixmap id"@,
            ThumbnailError::NamePixmap(Fault::Send) => "failed to request named window pixmap"@,
            ThumbnailError::NamePixmap(Fault::Reply) => {
                "XComposite could not name the window pixmap"@
            },
            ThumbnailError::AllocatePicture => "failed to allocate picture id"@,
            ThumbnailError::CreatePicture(Fault::Send) => {
                "failed to create source picture for thumbnail"@
            },
            ThumbnailError::CreatePicture(Fault::Reply) => {
                "XRender rejected source picture for thumbnail"@
            },
        }
    }

    /// What went wrong, in words.
    pub fn message(self) -> (message: String)
        ensures
            message@ == self.spec_message(),
    {
        match self {
            ThumbnailError::NoFormat { visual } => {
                let mut message: String = "no XRender pict format for visual 0x".to_owned();
                text::push_hex(&mut message, visual as u64, 8);
                message
            },
            ThumbnailError::Redirect(Fault::Send) => {
                "failed to request XComposite redirect".to_owned()
            },
            ThumbnailError::Redirect(Fault::Reply) => {
                "XComposite rejected redirect for window".to_owned()
            },
            ThumbnailError::AllocatePixmap => "failed to allocate pixmap id".to_owned(),
            ThumbnailError::NamePixmap(Fault::Send) => {
                "failed to request named window pixmap".to_owned()
            },
            ThumbnailError::NamePixmap(Fault::Reply) => {
                "XComposite could not name the window pixmap".to_owned()
            },
            ThumbnailError::AllocatePicture => "failed to allocate picture id".to_owned(),
            ThumbnailError::CreatePicture(Fault::Send) => {
                "failed to create source picture for thumbnail".to_owned()
            },
            ThumbnailError::CreatePicture(Fault::Reply) => {
                "XRender rejected source picture for thumbnail".to_owned()
            },
        }
    }
}

/// How far the thumbnail of a window has come.
#[derive(Debug, Clone, Copy, PartialEq, Eq, Structural)]
pub enum ThumbnailStage {
    /// Redirecting the window off screen.
    Redirecting,
    AllocatingPixmap,
    /// Naming the pixmap after the window's contents.
    NamingPixmap,
    AllocatingPicture,
    CreatingPicture,
    /// Asking for the best filter, which may be refused.
    Filtering,
    /// There is a thumbnail.
    Ready,
    /// Giving the picture back.
    FreeingPicture,
    /// Giving the pixmap back.
    FreeingPixmap,
    /// Ending the redirection.
    Unredirecting,
    /// There is no thumbnail.
    Failed,
}

/// A picture shows the windows inside its window as well.
pub const INCLUDE_INFERIORS: u32 = 1;

/// `best`: how thumbnails are scaled.
pub const FILTER_NAME: [u8; 4] = [0x62, 0x65, 0x73, 0x74];

/// What the thumbnail of a window asks for next.
#[derive(Debug, Clone, Copy, PartialEq, Eq)]
pub enum ThumbnailAction {
    Redirect { window: u32, update: u8 },
    AllocateId,
    NamePixmap { window: u32, pixmap: u32 },
    CreatePicture { picture: u32, pixmap: u32, format: u32, subwindow_mode: u32 },
    SetFilter { picture: u32, filter: [u8; 4] },
    FreePicture { picture: u32 },
    FreePixmap { pixmap: u32 },
    Unredirect { window: u32, update: u8 },
    Nothing,
}

/// What came of an action.
#[derive(Debug, Clone, Copy, PartialEq, Eq, Structural)]
pub enum ServerEvent {
    Allocated(u32),
    Done,
    Failed(Fault),
}

/// The making of a window's thumbnail: where it stands, and what it holds of the server.
#[derive(Debug, Clone, Copy)]
pub struct ThumbnailSetup {
    pub stage: ThumbnailStage,
    pub window: u32,
    pub width: u16,
    pub height: u16,
    pub format: u32,
    pub redirected: bool,
    pub pixmap: Option<u32>,
    pub picture: Option<u32>,
    pub error: Option<ThumbnailError>,
}

impl ThumbnailSetup {
    /// The thumbnail is that of the window.
    pub open spec fn of_window(self, window: WindowInfo) -> bool {
        &&& self.window == window.id
        &&& self.width == window.geometry.width
        &&& self.height == window.geometry.height
    }

    /// A thumbnail that has not begun.
    pub open spec fn fresh(self) -> bool {
        self.stage == ThumbnailStage::Redirecting && !self.redirected && self.pixmap is None
            && self.picture is None && self.error is None
    }

    /// Everything that was taken from the server is held; there is an error exactly where there
    /// is no thumbnail to come.
    pub open spec fn sound(self) -> bool {
        let (redirected, pixmap, picture, failed) = match self.stage {
            ThumbnailStage::Redirecting => (false, false, false, false),
            ThumbnailStage::AllocatingPixmap => (true, false, false, false),
            ThumbnailStage::NamingPixmap => (true, true, false, false),
            ThumbnailStage::AllocatingPicture => (true, true, false, false),
            ThumbnailStage::CreatingPicture => (true, true, true, false),
            ThumbnailStage::Filtering => (true, true, true, false),
            ThumbnailStage::Ready => (true, true, true, false),
            ThumbnailStage::FreeingPicture => (true, true, true, true),
            ThumbnailStage::FreeingPixmap => (true, true, false, true),
            ThumbnailStage::Unredirecting => (true, false, false, true),
            ThumbnailStage::Failed => (false, false, false, true),
        };
        &&& self.redirected == redirected
        &&& self.pixmap is Some == pixmap
        &&& self.picture is Some == picture
        &&& self.error is Some == failed
    }

    /// What to ask for.
    pub open spec fn next(self) -> ThumbnailAction {
        let window: u32 = self.window;
        let update: u8 = x11::REDIRECT_AUTOMATIC;
        match (self.stage, self.pixmap, self.picture) {
            (ThumbnailStage::Redirecting, _, _) => ThumbnailAction::Redirect { window, update },
            (ThumbnailStage::AllocatingPixmap, _, _) => ThumbnailAction::AllocateId,
            (ThumbnailStage::NamingPixmap, Some(pixmap), _) => {
                ThumbnailAction::NamePixmap { window, pixmap }
            },
            (ThumbnailStage::AllocatingPicture, _, _) => ThumbnailAction::AllocateId,
            (ThumbnailStage::CreatingPicture, Some(pixmap), Some(picture)) => {
                ThumbnailAction::CreatePicture {
                    picture,
                    pixmap,
                    format: self.format,
                    subwindow_mode: INCLUDE_INFERIORS,
                }
            },
            (ThumbnailStage::Filtering, _, Some(picture)) => {
                ThumbnailAction::SetFilter { picture, filter: FILTER_NAME }
            },
            (ThumbnailStage::FreeingPicture, _, Some(picture)) => {
                ThumbnailAction::FreePicture { picture }
            },
            (ThumbnailStage::FreeingPixmap, Some(pixmap), _) => {
                ThumbnailAction::FreePixmap { pixmap }
            },
            (ThumbnailStage::Unredirecting, _, _) => {
                ThumbnailAction::Unredirect { window, update }
            },
            _ => ThumbnailAction::Nothing,
        }
    }

    pub open spec fn at(self, stage: ThumbnailStage) -> ThumbnailSetup {
        ThumbnailSetup { stage, ..self }
    }

    /// On the way out: what is held is given back first.
    pub open spec fn leaving(self) -> ThumbnailSetup {
        if self.picture is Some {
            self.at(ThumbnailStage::FreeingPicture)
        } else if self.pixmap is Some {
            self.at(ThumbnailStage::FreeingPixmap)
        } else if self.redirected {
            self.at(ThumbnailStage::Unredirecting)
        } else {
            self.at(ThumbnailStage::Failed)
        }
    }

    pub open spec fn failed(self, error: ThumbnailError) -> ThumbnailSetup {
        ThumbnailSetup { error: Some(error), ..self }.leaving()
    }

    /// After an event. An event that does not answer the action changes nothing.
    pub open spec fn after(self, event: ServerEvent) -> ThumbnailSetup {
        match (self.stage, event) {
            (ThumbnailStage::Redirecting, ServerEvent::Done) => {
                ThumbnailSetup { redirected: true, ..self }.at(ThumbnailStage::AllocatingPixmap)
            },
            (ThumbnailStage::Redirecting, ServerEvent::Failed(fault)) => {
                self.failed(ThumbnailError::Redirect(fault))
            },
            (ThumbnailStage::AllocatingPixmap, ServerEvent::Allocated(id)) => {
                ThumbnailSetup { pixmap: Some(id), ..self }.at(ThumbnailStage::NamingPixmap)
            },
            (ThumbnailStage::AllocatingPixmap, ServerEvent::Failed(_)) => {
                self.failed(ThumbnailError::AllocatePixmap)
            },
            (ThumbnailStage::NamingPixmap, ServerEvent::Done) => {
                self.at(ThumbnailStage::AllocatingPicture)
            },
            (ThumbnailStage::NamingPixmap, ServerEvent::Failed(fault)) => {
                self.failed(ThumbnailError::NamePixmap(fault))
            },
            (ThumbnailStage::AllocatingPicture, ServerEvent::Allocated(id)) => {
                ThumbnailSetup { picture: Some(id), ..self }.at(ThumbnailStage::CreatingPicture)
            },
            (ThumbnailStage::AllocatingPicture, ServerEvent::Failed(_)) => {
                self.failed(ThumbnailError::AllocatePicture)
            },
            (ThumbnailStage::CreatingPicture, ServerEvent::Done) => {
                self.at(ThumbnailStage::Filtering)
            },
            (ThumbnailStage::CreatingPicture, ServerEvent::Failed(fault)) => {
                self.failed(ThumbnailError::CreatePicture(fault))
            },
            (ThumbnailStage::Filtering, ServerEvent::Done | ServerEvent::Failed(_)) => {
                self.at(ThumbnailStage::Ready)
            },
            (ThumbnailStage::FreeingPicture, ServerEvent::Done | ServerEvent::Failed(_)) => {
                ThumbnailSetup { picture: None, ..self }.leaving()
            },
            (ThumbnailStage::FreeingPixmap, ServerEvent::Done | ServerEvent::Failed(_)) => {
                ThumbnailSetup { pixmap: None, ..self }.leaving()
            },
            (ThumbnailStage::Unredirecting, ServerEvent::Done | ServerEvent::Failed(_)) => {
                ThumbnailSetup { redirected: false, ..self }.leaving()
            },
            _ => self,
        }
    }

    /// The thumbnail of a window, if pictures can show its visual.
    pub fn new(screens: &Vec<Vec<Vec<PictVisual>>>, window: &WindowInfo) -> (setup: Result<
        ThumbnailSetup,
        ThumbnailError,
    >)
        ensures
            match format_of(visuals_of_screens(screens@), window.geometry.visual) {
                Some(format) => {
                    &&& setup is Ok
                    &&& setup->Ok_0.fresh()
                    &&& setup->Ok_0.of_window(*window)
                    &&& setup->Ok_0.format == format
                },
                None => setup == Err::<ThumbnailSetup, ThumbnailError>(
                    ThumbnailError::NoFormat { visual: window.geometry.visual },
                ),
            },
            setup is Ok ==> setup->Ok_0.sound(),
    {
        let visual: u32 = window.geometry.visual;
        match pict_format_for_visual(screens, visual) {
            Some(format) => Ok(
                ThumbnailSetup {
                    stage: ThumbnailStage::Redirecting,
                    window: window.id,
                    width: window.geometry.width,
                    height: window.geometry.height,
                    format,
                    redirected: false,
                    pixmap: None,
                    picture: None,
                    error: None,
                },
            ),
            None => Err(ThumbnailError::NoFormat { visual }),
        }
    }

    /// What to ask for.
    pub fn action(&self) -> (action: ThumbnailAction)
        ensures
            action == self.next(),
    {
        let window: u32 = self.window;
        let update: u8 = x11::REDIRECT_AUTOMATIC;
        match (self.stage, self.pixmap, self.picture) {
            (ThumbnailStage::Redirecting, _, _) => ThumbnailAction::Redirect { window, update },
            (ThumbnailStage::AllocatingPixmap, _, _) => ThumbnailAction::AllocateId,
            (ThumbnailStage::NamingPixmap, Some(pixmap), _) => {
                ThumbnailAction::NamePixmap { window, pixmap }
            },
            (ThumbnailStage::AllocatingPicture, _, _) => ThumbnailAction::AllocateId,
            (ThumbnailStage::CreatingPicture, Some(pixmap), Some(picture)) => {
                ThumbnailAction::CreatePicture {
                    picture,
                    pixmap,
                    format: self.format,
                    subwindow_mode: INCLUDE_INFERIORS,
                }
            },
            (ThumbnailStage::Filtering, _, Some(picture)) => {
                ThumbnailAction::SetFilter { picture, filter: FILTER_NAME }
            },
            (ThumbnailStage::FreeingPicture, _, Some(picture)) => {
                ThumbnailAction::FreePicture { picture }
            },
            (ThumbnailStage::FreeingPixmap, Some(pixmap), _) => {
                ThumbnailAction::FreePixmap { pixmap }
            },
            (ThumbnailStage::Unredirecting, _, _) => {
                ThumbnailAction::Unredirect { window, update }
            },
            _ => ThumbnailAction::Nothing,
        }
    }

    fn leave(&mut self)
        ensures
            *final(self) == old(self).leaving(),
    {
        self.stage = if self.picture.is_some() {
            ThumbnailStage::FreeingPicture
        } else if self.pixmap.is_some() {
            ThumbnailStage::FreeingPixmap
        } else if self.redirected {
            ThumbnailStage::Unredirecting
        } else {
            ThumbnailStage::Failed
        };
    }

    fn fail(&mut self, error: ThumbnailError)
        ensures
            *final(self) == old(self).failed(error),
    {
        self.error = Some(error);
        self.leave();
    }

    /// Takes in what came of the action.
    pub fn handle(&mut self, event: ServerEvent)
        ensures
            *final(self) == old(self).after(event),
            old(self).sound() ==> final(self).sound(),
    {
        match (self.stage, event) {
            (ThumbnailStage::Redirecting, ServerEvent::Done) => {
                self.redirected = true;
                self.stage = ThumbnailStage::AllocatingPixmap;
            },
            (ThumbnailStage::Redirecting, ServerEvent::Failed(fault)) => {
                self.fail(ThumbnailError::Redirect(fault));
            },
            (ThumbnailStage::AllocatingPixmap, ServerEvent::Allocated(id)) => {
                self.pixmap = Some(id);
                self.stage = ThumbnailStage::NamingPixmap;
            },
            (ThumbnailStage::AllocatingPixmap, ServerEvent::Failed(_)) => {
                self.fail(ThumbnailError::AllocatePixmap);
            },
            (ThumbnailStage::NamingPixmap, ServerEvent::Done) => {
                self.stage = ThumbnailStage::AllocatingPicture;
            },
            (ThumbnailStage::NamingPixmap, ServerEvent::Failed(fault)) => {
                self.fail(ThumbnailError::NamePixmap(fault));
            },
            (ThumbnailStage::AllocatingPicture, ServerEvent::Allocated(id)) => {
                self.picture = Some(id);
                self.stage = ThumbnailStage::CreatingPicture;
            },
            (ThumbnailStage::AllocatingPicture, ServerEvent::Failed(_)) => {
                self.fail(ThumbnailError::AllocatePicture);
            },
            (ThumbnailStage::CreatingPicture, ServerEvent::Done) => {
                self.stage = ThumbnailStage::Filtering;
            },
            (ThumbnailStage::CreatingPicture, ServerEvent::Failed(fault)) => {
                self.fail(ThumbnailError::CreatePicture(fault));
            },
            (ThumbnailStage::Filtering, ServerEvent::Done | ServerEvent::Failed(_)) => {
                self.stage = ThumbnailStage::Ready;
            },
            (ThumbnailStage::FreeingPicture, ServerEvent::Done | ServerEvent::Failed(_)) => {
                self.picture = None;
                self.leave();
            },
            (ThumbnailStage::FreeingPixmap, ServerEvent::Done | ServerEvent::Failed(_)) => {
                self.pixmap = None;
                self.leave();
            },
            (ThumbnailStage::Unredirecting, ServerEvent::Done | ServerEvent::Failed(_)) => {
                self.redirected = false;
                self.leave();
            },
            _ => {},
        }
    }

    /// `slot` is what the setup leaves, once it is over.
    pub open spec fn leaves(self, slot: Option<ThumbnailSlot>) -> bool {
        match self.stage {
            ThumbnailStage::Ready => {
                &&& slot is Some
                &&& slot->0.window == self.window
                &&& slot->0.redirected
                &&& slot->0.state == ThumbnailState::Ready(
                    Thumbnail {
                        pixmap: self.pixmap->0,
                        picture: self.picture->0,
                        width: self.width,
                        height: self.height,
                    },
                )
            },
            ThumbnailStage::Failed => {
                &&& slot is Some
                &&& slot->0.window == self.window
                &&& !slot->0.redirected
                &&& slot->0.state is Error
                &&& slot->0.state->Error_0@ == self.error->0.spec_message()
            },
            _ => slot is None,
        }
    }

    /// The slot that the setup of a window's thumbnail leaves, once it is over.
    pub fn slot(&self) -> (slot: Option<ThumbnailSlot>)
        requires
            self.sound(),
        ensures
            match self.stage {
                ThumbnailStage::Ready => {
                    &&& slot is Some
                    &&& slot->0.window == self.window
                    &&& slot->0.redirected
                    &&& slot->0.state == ThumbnailState::Ready(
                        Thumbnail {
                            pixmap: self.pixmap->0,
                            picture: self.picture->0,
                            width: self.width,
                            height: self.height,
                        },
                    )
                },
                ThumbnailStage::Failed => {
                    &&& slot is Some
                    &&& slot->0.window == self.window
                    &&& !slot->0.redirected
                    &&& slot->0.state is Error
                    &&& slot->0.state->Error_0@ == self.error->0.spec_message()
                },
                _ => slot is None,
            },
            self.leaves(slot),
    {
        match (self.stage, self.pixmap, self.picture, self.error) {
            (ThumbnailStage::Ready, Some(pixmap), Some(picture), _) => {
                let thumbnail: Thumbnail = Thumbnail {
                    pixmap,
                    picture,
                    width: self.width,
                    height: self.height,
                };
                Some(
                    ThumbnailSlot {
                        window: self.window,
                        redirected: true,
                        state: ThumbnailState::Ready(thumbnail),
                    },
                )
            },
            (ThumbnailStage::Failed, _, _, Some(error)) => Some(failed_slot(self.window, error)),
            _ => None,
        }
    }
}

/// The slot of a window without a thumbnail.
pub fn failed_slot(window: u32, error: ThumbnailError) -> (slot: ThumbnailSlot)
    ensures
        slot.window == window,
        !slot.redirected,
        slot.state is Error,
        slot.state->Error_0@ == error.spec_message(),
{
    ThumbnailSlot { window, redirected: false, state: ThumbnailState::Error(error.message()) }
}

/// The setup after a run of events.
pub open spec fn setup_after(setup: ThumbnailSetup, events: Seq<ServerEvent>) -> ThumbnailSetup
    decreases events.len(),
{
    if events.len() == 0 {
        setup
    } else {
        setup_after(setup, events.drop_last()).after(events.last())
    }
}

/// Whatever the server answers, a thumbnail that could not be made holds nothing of the server,
/// and one that was made holds its redirection, its pixmap and its picture.
pub proof fn law_thumbnail_holds_all_or_nothing(setup: ThumbnailSetup, events: Seq<ServerEvent>)
    requires
        setup.fresh(),
    ensures
        setup_after(setup, events).sound(),
        setup_after(setup, events).stage == ThumbnailStage::Failed ==> {
            &&& !setup_after(setup, events).redirected
            &&& setup_after(setup, events).pixmap is None
            &&& setup_after(setup, events).picture is None
            &&& setup_after(setup, events).error is Some
        },
        setup_after(setup, events).stage == ThumbnailStage::Ready ==> {
            &&& setup_after(setup, events).redirected
            &&& setup_after(setup, events).pixmap is Some
            &&& setup_after(setup, events).picture is Some
        },
    decreases events.len(),
{
    if events.len() > 0 {
        law_thumbnail_holds_all_or_nothing(setup, events.drop_last());
    }
}

/// What a thumbnail holds leaves the record only when it is given back, and it stays the
/// thumbnail of its window.
pub proof fn law_thumbnail_forgets_nothing(setup: ThumbnailSetup, event: ServerEvent)
    requires
        setup.sound(),
    ensures
        setup.picture is Some && setup.after(event).picture != setup.picture ==> setup.next() == (
        ThumbnailAction::FreePicture { picture: setup.picture->0 }),
        setup.pixmap is Some && setup.after(event).pixmap != setup.pixmap ==> setup.next() == (
        ThumbnailAction::FreePixmap { pixmap: setup.pixmap->0 }),
        setup.redirected && !setup.after(event).redirected ==> setup.next() == (
        ThumbnailAction::Unredirect { window: setup.window, update: x11::REDIRECT_AUTOMATIC }),
        setup.after(event).window == setup.window,
        setup.after(event).width == setup.width,
        setup.after(event).height == setup.height,
{
}

/// Every step of a frame belongs to the background or to one window, and shows that window: a
/// thumbnail is the one of the window's own slot, on the window's own preview and scaled from its
/// own size; a cell is lit only where the window is selected; a border runs along the edges of the
/// window's own cell, and what went wrong stands where its thumbnail would.
pub proof fn law_every_step_shows_its_own_window(
    overlay: Overlay,
    slots: Seq<ThumbnailSlot>,
    windows: Seq<WindowInfo>,
    items: Seq<LayoutItem>,
    selected: usize,
    place: int,
) -> (index: int)
    requires
        0 <= place < frame(overlay, slots, windows, items, selected).len(),
    ensures
        -1 <= index < windows.len(),
        -1 <= index < items.len(),
        index == -1 ==> place == 0 && frame(overlay, slots, windows, items, selected)[place]
            == (Step::Fill {
            rect: Rect { x: 0, y: 0, width: overlay.width, height: overlay.height },
            shade: Shade::Background,
        }),
        index >= 0 ==> match frame(overlay, slots, windows, items, selected)[place] {
            Step::Thumbnail { slot, rect, scale_x, scale_y } => {
                &&& slot == index
                &&& rect == items[index].preview
                &&& rect.width > 0 && rect.height > 0
                &&& index < slots.len()
                &&& slots[index].state is Ready
                &&& ({
                    let width = slots[index].state->Ready_0.width as int;
                    let units = width * 0x1_0000 / rect.width as int;
                    scale_x == units || scale_x == units - 0x1_0000_0000 && units >= 0x8000_0000
                })
                &&& ({
                    let height = slots[index].state->Ready_0.height as int;
                    let units = height * 0x1_0000 / rect.height as int;
                    scale_y == units || scale_y == units - 0x1_0000_0000 && units >= 0x8000_0000
                })
            },
            Step::Fill { rect, shade } => {
                &&& rect.width > 0 && rect.height > 0
                &&& match shade {
                    Shade::Cell => index != selected && rect == items[index].cell,
                    Shade::CellHover => index == selected && rect == items[index].cell,
                    Shade::Border => {
                        &&& index != selected
                        &&& rect.x == items[index].cell.x && rect.width == items[index].cell.width
                            && rect.height == 2 || rect.y == items[index].cell.y && rect.height
                            == items[index].cell.height && rect.width == 2
                    },
                    Shade::Selected => {
                        &&& index == selected
                        &&& rect.x == items[index].cell.x && rect.width == items[index].cell.width
                            && rect.height == 4 || rect.y == items[index].cell.y && rect.height
                            == items[index].cell.height && rect.width == 4
                    },
                    Shade::Error => {
                        &&& rect == items[index].preview
                        &&& index >= slots.len() || slots[index].state is Error
                    },
                    Shade::Background | Shade::Text => false,
                }
            },
            Step::Text { x, y, bytes } => {
                &&& 0 < bytes.len() <= 96
                &&& x == items[index].cell.x + 10 || x == items[index].preview.x + 8 && (index
                    >= slots.len() || slots[index].state is Error)
            },
        },
{
    let ground = filled(overlay.area(), Shade::Background);
    let count = paired(windows.len(), items.len());
    if place < ground.len() {
        -1
    } else {
        let at = place - ground.len();
        let index = lemma_step_in_items(slots, windows, items, selected, count, at);
        let step = frame(overlay, slots, windows, items, selected)[place];
        let item = items[index];
        assert(step == items_drawn(slots, windows, items, selected, count)[at]);
        if border_drawn(item.cell, index == selected).contains(step) {
            lemma_border_step(item.cell, index == selected, step);
        }
        if label_drawn(item.cell, windows[index].name@).contains(step) {
            law_labels_are_short_and_printable(windows[index].name@, LABEL_LENGTH as nat);
        }
        let preview = preview_drawn(slots, index, item.preview);
        if preview.contains(step) {
            let message = if index < slots.len() && slots[index].state is Error {
                slots[index].state->Error_0@
            } else {
                "preview missing"@
            };
            law_labels_are_short_and_printable(
                "preview error: "@ + message,
                LABEL_LENGTH as nat,
            );
            let k = preview.index_of(step);
            assert(preview[k] == step);
        }
        index
    }
}

/// A piece of a border lies along an edge.
proof fn lemma_border_step(rect: Rect, selected: bool, step: Step)
    requires
        border_drawn(rect, selected).contains(step),
    ensures
        step is Fill,
        step->Fill_shade == (if selected {
            Shade::Selected
        } else {
            Shade::Border
        }),
        !hollow(step->Fill_rect),
        exists|piece: int| 0 <= piece < 4 && step->Fill_rect == #[trigger] border_piece(
            rect,
            selected,
            piece,
        ),
{
    let shade = if selected {
        Shade::Selected
    } else {
        Shade::Border
    };
    let a = filled(border_piece(rect, selected, 0), shade);
    let b = filled(border_piece(rect, selected, 1), shade);
    let c = filled(border_piece(rect, selected, 2), shade);
    let d = filled(border_piece(rect, selected, 3), shade);
    let all = a + b + c + d;
    let k = choose|k: int| 0 <= k < all.len() && all[k] == step;
    if k < a.len() {
        assert(all[k] == a[k]);
    } else if k < a.len() + b.len() {
        assert(all[k] == b[k - a.len()]);
    } else if k < a.len() + b.len() + c.len() {
        assert(all[k] == c[k - a.len() - b.len()]);
    } else {
        assert(all[k] == d[k - a.len() - b.len() - c.len()]);
    }
}

/// The window that a step of drawing the first `count` windows belongs to.
proof fn lemma_step_in_items(
    slots: Seq<ThumbnailSlot>,
    windows: Seq<WindowInfo>,
    items: Seq<LayoutItem>,
    selected: usize,
    count: nat,
    place: int,
) -> (index: int)
    requires
        count <= windows.len(),
        count <= items.len(),
        0 <= place < items_drawn(slots, windows, items, selected, count).len(),
    ensures
        0 <= index < count,
        ({
            let part = item_drawn(
                slots,
                index,
                items[index],
                windows[index].name@,
                index == selected,
            );
            let start = items_drawn(slots, windows, items, selected, index as nat).len();
            let step = items_drawn(slots, windows, items, selected, count)[place];
            &&& start <= place < start + part.len()
            &&& step == part[place - start]
            &&& step is Thumbnail ==> preview_drawn(slots, index, items[index].preview).contains(
                step,
            )
            &&& step is Text ==> {
                ||| label_drawn(items[index].cell, windows[index].name@).contains(step)
                ||| preview_drawn(slots, index, items[index].preview).contains(step)
            }
            &&& step is Fill ==> {
                ||| step->Fill_shade == (if index == selected {
                    Shade::CellHover
                } else {
                    Shade::Cell
                }) && step->Fill_rect == items[index].cell
                ||| preview_drawn(slots, index, items[index].preview).contains(step)
                ||| border_drawn(items[index].cell, index == selected).contains(step)
            }
        }),
    decreases count,
{
    let last = count - 1;
    let before = items_drawn(slots, windows, items, selected, last as nat);
    if place < before.len() {
        lemma_step_in_items(slots, windows, items, selected, last as nat, place)
    } else {
        let item = items[last];
        let cell = filled(
            item.cell,
            if last == selected {
                Shade::CellHover
            } else {
                Shade::Cell
            },
        );
        let preview = preview_drawn(slots, last, item.preview);
        let label = label_drawn(item.cell, windows[last].name@);
        let border = border_drawn(item.cell, last == selected);
        let part = item_drawn(slots, last, item, windows[last].name@, last == selected);
        let at = place - before.len();
        assert(part == cell + preview + label + border);
        if at < cell.len() {
        } else if at < cell.len() + preview.len() {
            assert(part[at] == preview[at - cell.len()]);
        } else if at < cell.len() + preview.len() + label.len() {
            assert(part[at] == label[at - cell.len() - preview.len()]);
        } else {
            assert(part[at] == border[at - cell.len() - preview.len() - label.len()]);
        }
        last
    }
}

/// The drawing of one window stands in that of all as it is.
proof fn lemma_item_in_items(
    slots: Seq<ThumbnailSlot>,
    windows: Seq<WindowInfo>,
    items: Seq<LayoutItem>,
    selected: usize,
    count: nat,
    index: int,
)
    requires
        0 <= index < count,
    ensures
        ({
            let all = items_drawn(slots, windows, items, selected, count);
            let start = items_drawn(slots, windows, items, selected, index as nat).len();
            let part = item_drawn(
                slots,
                index,
                items[index],
                windows[index].name@,
                index == selected,
            );
            &&& start + part.len() <= all.len()
            &&& forall|k: int| 0 <= k < part.len() ==> all[start + k] == #[trigger] part[k]
        }),
    decreases count,
{
    let last = count - 1;
    if index < last {
        lemma_item_in_items(slots, windows, items, selected, last as nat, index);
    }
}

/// Nothing is left out of a frame, and nothing is painted over by what belongs under it: every
/// window with a cell is drawn, first the cell, which is lit where the window is selected, on it
/// the thumbnail of the window's own slot or what went wrong with it, below that the window's own
/// name, and around all the four sides of the border, which is thicker where the window is
/// selected.
pub proof fn law_every_window_is_drawn(
    overlay: Overlay,
    slots: Seq<ThumbnailSlot>,
    windows: Seq<WindowInfo>,
    items: Seq<LayoutItem>,
    selected: usize,
    index: int,
) -> (places: (int, int, int, int))
    requires
        0 <= index < windows.len(),
        0 <= index < items.len(),
        4 <= items[index].cell.width < 0x8000,
        4 <= items[index].cell.height < 0x8000,
        items[index].cell.x + items[index].cell.width <= 0x7fff,
        -0x8000 + 11 <= items[index].cell.y + items[index].cell.height <= 0x7fff,
        0 < items[index].preview.width,
        0 < items[index].preview.height < 0x8000,
    ensures
        ({
            let (cell_at, preview_at, label_at, border_at) = places;
            let steps = frame(overlay, slots, windows, items, selected);
            let cell = items[index].cell;
            let preview = items[index].preview;
            let thick = if index == selected {
                4u16
            } else {
                2u16
            };
            let side = if index == selected {
                Shade::Selected
            } else {
                Shade::Border
            };
            &&& 0 <= cell_at < preview_at < label_at <= border_at
            &&& border_at + 4 <= steps.len()
            &&& steps[cell_at] == (Step::Fill {
                rect: cell,
                shade: if index == selected {
                    Shade::CellHover
                } else {
                    Shade::Cell
                },
            })
            &&& index < slots.len() && slots[index].state is Ready ==> {
                &&& steps[preview_at] is Thumbnail
                &&& steps[preview_at]->slot == index
                &&& steps[preview_at]->Thumbnail_rect == preview
            }
            &&& index >= slots.len() || slots[index].state is Error ==> {
                let message = if index < slots.len() {
                    slots[index].state->Error_0@
                } else {
                    "preview missing"@
                };
                &&& preview_at + 1 < label_at
                &&& steps[preview_at] == (Step::Fill { rect: preview, shade: Shade::Error })
                &&& steps[preview_at + 1] == (Step::Text {
                    x: preview.x + 8,
                    y: preview.y + preview.height as int / 2,
                    bytes: label_of("preview error: "@ + message, 96),
                })
            }
            &&& label_of(windows[index].name@, 96).len() > 0 ==> {
                &&& label_at < border_at
                &&& steps[label_at] == (Step::Text {
                    x: cell.x + 10,
                    y: cell.y + cell.height - 11,
                    bytes: label_of(windows[index].name@, 96),
                })
            }
            &&& steps[border_at] == (Step::Fill {
                rect: Rect { x: cell.x, y: cell.y, width: cell.width, height: thick },
                shade: side,
            })
            &&& steps[border_at + 1] == (Step::Fill {
                rect: Rect {
                    x: cell.x,
                    y: (cell.y + cell.height - thick) as i16,
                    width: cell.width,
                    height: thick,
                },
                shade: side,
            })
            &&& steps[border_at + 2] == (Step::Fill {
                rect: Rect { x: cell.x, y: cell.y, width: thick, height: cell.height },
                shade: side,
            })
            &&& steps[border_at + 3] == (Step::Fill {
                rect: Rect {
                    x: (cell.x + cell.width - thick) as i16,
                    y: cell.y,
                    width: thick,
                    height: cell.height,
                },
                shade: side,
            })
        }),
{
    let ground = filled(overlay.area(), Shade::Background);
    let count = paired(windows.len(), items.len());
    let steps = frame(overlay, slots, windows, items, selected);
    let item = items[index];
    let name = windows[index].name@;
    lemma_item_in_items(slots, windows, items, selected, count, index);
    let all = items_drawn(slots, windows, items, selected, count);
    let start = items_drawn(slots, windows, items, selected, index as nat).len();
    let part = item_drawn(slots, index, item, name, index == selected);
    let base = (ground.len() + start) as int;
    assert forall|k: int| 0 <= k < part.len() implies steps[base + k] == #[trigger] part[k] by {
        assert(steps[base + k] == all[start + k]);
    }
    let cell = filled(
        item.cell,
        if index == selected {
            Shade::CellHover
        } else {
            Shade::Cell
        },
    );
    let preview = preview_drawn(slots, index, item.preview);
    let label = label_drawn(item.cell, name);
    let border = border_drawn(item.cell, index == selected);
    assert(part == cell + preview + label + border);
    assert(cell.len() == 1);
    reveal_strlit("preview error: ");
    let message = if index < slots.len() && slots[index].state is Error {
        slots[index].state->Error_0@
    } else {
        "preview missing"@
    };
    lemma_some_label("preview error: "@, message, 96);
    assert(border.len() == 4);
    let at = (cell.len() + preview.len()) as int;
    let edge = at + label.len();
    assert(part[0] == cell[0]);
    assert(part[1] == preview[0]);
    if preview.len() == 2 {
        assert(part[2] == preview[1]);
    }
    if label.len() > 0 {
        assert(part[at] == label[0]);
    }
    assert(part[edge] == border[0]);
    assert(part[edge + 1] == border[1]);
    assert(part[edge + 2] == border[2]);
    assert(part[edge + 3] == border[3]);
    (base, base + 1, base + at, base + edge)
}

/// A text that begins with a character has a label.
proof fn lemma_some_label(start: Seq<char>, rest: Seq<char>, limit: nat)
    requires
        start.len() > 0,
        limit > 0,
    ensures
        label_of(start + rest, limit).len() > 0,
    decreases rest.len(), start.len(),
{
    let text = start + rest;
    if rest.len() > 0 {
        lemma_some_label(start, rest.drop_last(), limit);
        assert(text.drop_last() =~= start + rest.drop_last());
    }
}

/// A window further on in the list is drawn later, so that its cell is never covered by an
/// earlier one.
pub proof fn law_windows_are_drawn_in_turn(
    overlay: Overlay,
    slots: Seq<ThumbnailSlot>,
    windows: Seq<WindowInfo>,
    items: Seq<LayoutItem>,
    selected: usize,
    first: int,
    second: int,
) -> (places: (int, int))
    requires
        0 <= first < second < windows.len(),
        second < items.len(),
        items[first].cell.width > 0 && items[first].cell.height > 0,
        items[second].cell.width > 0 && items[second].cell.height > 0,
    ensures
        ({
            let steps = frame(overlay, slots, windows, items, selected);
            &&& 0 <= places.0 < places.1 < steps.len()
            &&& steps[places.0] is Fill && steps[places.0]->Fill_rect == items[first].cell
            &&& steps[places.1] is Fill && steps[places.1]->Fill_rect == items[second].cell
            &&& (steps[places.0]->Fill_shade == Shade::CellHover) == (first == selected)
            &&& (steps[places.1]->Fill_shade == Shade::CellHover) == (second == selected)
        }),
{
    let ground = filled(overlay.area(), Shade::Background);
    let count = paired(windows.len(), items.len());
    lemma_item_in_items(slots, windows, items, selected, count, first);
    lemma_item_in_items(slots, windows, items, selected, count, second);
    lemma_item_in_items(slots, windows, items, selected, second as nat, first);
    let all = items_drawn(slots, windows, items, selected, count);
    let a = items_drawn(slots, windows, items, selected, first as nat).len() as int;
    let b = items_drawn(slots, windows, items, selected, second as nat).len() as int;
    let one = item_drawn(slots, first, items[first], windows[first].name@, first == selected);
    let two = item_drawn(slots, second, items[second], windows[second].name@, second == selected);
    assert(all[a + 0] == one[0]);
    assert(all[b + 0] == two[0]);
    (ground.len() + a, ground.len() + b)
}

/// What cannot be drawn is drawn alike, and a run of it as one question mark: another character
/// that cannot be drawn in place of one changes nothing, and neither does one more beside it; and
/// one after drawable text adds a question mark.
pub proof fn law_undrawable_text_is_one_question_mark(
    text: Seq<char>,
    one: char,
    other: char,
    rest: Seq<char>,
    limit: nat,
)
    requires
        !(' ' <= one <= '~'),
        !(' ' <= other <= '~'),
    ensures
        label_of(text.push(one) + rest, limit) == label_of(text.push(other) + rest, limit),
        label_of(text.push(one).push(other) + rest, limit) == label_of(
            text.push(one) + rest,
            limit,
        ),
        (forall|i: int| 0 <= i < text.len() ==> ' ' <= #[trigger] text[i] <= '~') && text.len()
            < limit && (text.len() == 0 || text.last() != '?') ==> label_of(text.push(one), limit)
            == text.map_values(|ch: char| ch as u8).push(0x3f),
    decreases rest.len(),
{
    let a = text.push(one) + rest;
    let b = text.push(other) + rest;
    let c = text.push(one).push(other) + rest;
    if rest.len() > 0 {
        law_undrawable_text_is_one_question_mark(text, one, other, rest.drop_last(), limit);
        assert(a.drop_last() =~= text.push(one) + rest.drop_last());
        assert(b.drop_last() =~= text.push(other) + rest.drop_last());
        assert(c.drop_last() =~= text.push(one).push(other) + rest.drop_last());
    } else {
        assert(a =~= text.push(one));
        assert(b =~= text.push(other));
        assert(c =~= text.push(one).push(other));
        assert(a.drop_last() =~= text);
        assert(b.drop_last() =~= text);
        assert(c.drop_last() =~= text.push(one));
        if limit > 0 {
            lemma_some_label(text.push(one), seq![], limit);
            assert(text.push(one) + Seq::<char>::empty() =~= text.push(one));
        }
    }
    if (forall|i: int| 0 <= i < text.len() ==> ' ' <= #[trigger] text[i] <= '~') && text.len()
        < limit && (text.len() == 0 || text.last() != '?') {
        lemma_printable_label(text, limit);
        assert(text.push(one).drop_last() =~= text);
        let label = label_of(text, limit);
        if text.len() > 0 {
            assert(label.last() == text.last() as u8);
            let ch: char = text.last();
            let code = ch as u32;
            assert(ch as u8 == 0x3f ==> ch == '?');
        }
        assert(label_of(text.push(one), limit) =~= text.map_values(|ch: char| ch as u8).push(0x3f));
    }
}

/// A thumbnail that nothing hinders redirects its own window, names a pixmap after it and makes a
/// picture of that, and is ready even where the filter is refused.
pub proof fn law_thumbnail_runs_its_course(
    setup: ThumbnailSetup,
    window: WindowInfo,
    pixmap: u32,
    picture: u32,
    fault: Fault,
)
    requires
        setup.fresh(),
        setup.of_window(window),
    ensures
        ({
            let redirected = setup.after(ServerEvent::Done);
            let allocated = redirected.after(ServerEvent::Allocated(pixmap));
            let named = allocated.after(ServerEvent::Done);
            let numbered = named.after(ServerEvent::Allocated(picture));
            let created = numbered.after(ServerEvent::Done);
            let ready = created.after(ServerEvent::Done);
            &&& setup.next() == (ThumbnailAction::Redirect { window: window.id, update: 0 })
            &&& redirected.next() == ThumbnailAction::AllocateId
            &&& allocated.next() == (ThumbnailAction::NamePixmap { window: window.id, pixmap })
            &&& named.next() == ThumbnailAction::AllocateId
            &&& numbered.next() == (ThumbnailAction::CreatePicture {
                picture,
                pixmap,
                format: setup.format,
                subwindow_mode: 1,
            })
            &&& created.next() matches ThumbnailAction::SetFilter { picture: shown, filter }
            &&& shown == picture
            &&& filter@ == vstd::utf8::encode_utf8("best"@)
            &&& ready.stage == ThumbnailStage::Ready
            &&& ready.next() == ThumbnailAction::Nothing
            &&& created.after(ServerEvent::Failed(fault)) == ready
            &&& ready.window == window.id
            &&& ready.width == window.geometry.width
            &&& ready.height == window.geometry.height
            &&& ready.pixmap == Some(pixmap)
            &&& ready.picture == Some(picture)
            &&& ready.redirected
            &&& ready.error is None
        }),
{
    reveal_strlit("best");
    vstd::utf8::is_ascii_chars_encode_utf8("best"@);
    assert(vstd::utf8::encode_utf8("best"@) =~= FILTER_NAME@);
}

/// What goes wrong on the way to a thumbnail is told as what was asked for, and what is held is
/// given back then: the picture, the pixmap, the redirection. A failure to give back is no error.
pub proof fn law_thumbnail_failures_are_told(setup: ThumbnailSetup, fault: Fault)
    requires
        setup.sound(),
    ensures
        ({
            let next = setup.after(ServerEvent::Failed(fault));
            match setup.next() {
                ThumbnailAction::Redirect { .. } => next.error == Some(
                    ThumbnailError::Redirect(fault),
                ) && next.stage == ThumbnailStage::Failed,
                ThumbnailAction::AllocateId => if setup.pixmap is None {
                    next.error == Some(ThumbnailError::AllocatePixmap) && next.next() == (
                    ThumbnailAction::Unredirect { window: setup.window, update: 0 })
                } else {
                    next.error == Some(ThumbnailError::AllocatePicture) && next.next() == (
                    ThumbnailAction::FreePixmap { pixmap: setup.pixmap->0 })
                },
                ThumbnailAction::NamePixmap { pixmap, .. } => next.error == Some(
                    ThumbnailError::NamePixmap(fault),
                ) && next.next() == (ThumbnailAction::FreePixmap { pixmap }),
                ThumbnailAction::CreatePicture { picture, .. } => next.error == Some(
                    ThumbnailError::CreatePicture(fault),
                ) && next.next() == (ThumbnailAction::FreePicture { picture }),
                ThumbnailAction::SetFilter { .. } => next.error is None && next.stage
                    == ThumbnailStage::Ready,
                ThumbnailAction::FreePicture { .. } => next.error == setup.error && next.next()
                    == (ThumbnailAction::FreePixmap { pixmap: setup.pixmap->0 }),
                ThumbnailAction::FreePixmap { .. } => next.error == setup.error && next.next() == (
                ThumbnailAction::Unredirect { window: setup.window, update: 0 }),
                ThumbnailAction::Unredirect { .. } => next.error == setup.error && next.stage
                    == ThumbnailStage::Failed,
                ThumbnailAction::Nothing => next == setup,
            }
        }),
{
}

/// Nothing is given back but what a slot or the overlay holds: of the slots one after the other
/// the picture, then the pixmap, then the redirection, and of the overlay the keyboard first and
/// the window last.
pub proof fn law_only_what_is_held_is_given_back(
    before: Seq<ThumbnailSlot>,
    slot: ThumbnailSlot,
    overlay: Overlay,
)
    ensures
        slots_released(seq![]).len() == 0,
        ({
            let first = slots_released(before);
            let all = slots_released(before.push(slot));
            let held = match slot.state {
                ThumbnailState::Ready(thumbnail) => seq![
                    Release::Picture(thumbnail.picture),
                    Release::Pixmap(thumbnail.pixmap),
                ],
                ThumbnailState::Error(_) => seq![],
            };
            all == first + held + (if slot.redirected {
                seq![Release::Redirection(slot.window)]
            } else {
                seq![]
            })
        }),
        ({
            let list = overlay_released(overlay);
            &&& list.len() == 11
            &&& list[0] == Release::UngrabKeyboard
            &&& list[1] == Release::Picture(overlay.picture)
            &&& forall|i: int| 2 <= i < 9 ==> #[trigger] list[i] is Gc
            &&& list[9] == Release::Font(overlay.gcs.font)
            &&& list[10] == Release::Window(overlay.window)
        }),
{
    assert(before.push(slot).drop_last() =~= before);
    let first = slots_released(before);
    let held: Seq<Release> = match slot.state {
        ThumbnailState::Ready(thumbnail) => seq![
            Release::Picture(thumbnail.picture),
            Release::Pixmap(thumbnail.pixmap),
        ],
        ThumbnailState::Error(_) => seq![],
    };
    let last: Seq<Release> = if slot.redirected {
        seq![Release::Redirection(slot.window)]
    } else {
        seq![]
    };
    assert(slots_released(before.push(slot)) =~= first + held + last);
}

/// A ratio is the source divided by the destination in units of `1 / 65536`, rounded down; equal
/// lengths have the ratio one, and so has a destination without length.
pub proof fn law_ratios_are_fixed_point_quotients(source: u16, destination: u16)
    ensures
        destination == 0 ==> ratio(source, destination) == 0x1_0000,
        destination > 0 && source < 0x8000 * destination ==> {
            let units = ratio(source, destination);
            units * destination <= source * 0x1_0000 < (units + 1) * destination
        },
        destination > 0 && source == destination ==> ratio(source, destination) == 0x1_0000,
{
    if destination > 0 {
        let d = destination as int;
        let units = source * 0x1_0000 / d;
        vstd::arithmetic::div_mod::lemma_fundamental_div_mod(source * 0x1_0000, d);
        assert(0 <= (source * 0x1_0000) % d < d) by (nonlinear_arith)
            requires
                d > 0,
        ;
        assert(d * units == units * d && (units + 1) * d == units * d + d) by (nonlinear_arith);
        if source < 0x8000 * destination {
            assert(units < 0x8000_0000) by (nonlinear_arith)
                requires
                    units * d <= source * 0x1_0000,
                    source < 0x8000 * d,
                    d > 0,
            ;
        }
        if source == destination {
            assert(units == 0x1_0000) by (nonlinear_arith)
                requires
                    units * d <= d * 0x1_0000 < (units + 1) * d,
                    d > 0,
            ;
        }
    }
}

/// The format of a visual is that of the first entry that names the visual, screen by screen and
/// depth by depth; there is none where no entry does.
pub proof fn law_first_entry_of_a_visual_counts(
    before: Seq<PictVisual>,
    entry: PictVisual,
    after: Seq<PictVisual>,
    depths: Seq<Vec<PictVisual>>,
    depth: Vec<PictVisual>,
    screens: Seq<Vec<Vec<PictVisual>>>,
    screen: Vec<Vec<PictVisual>>,
)
    requires
        forall|i: int| 0 <= i < before.len() ==> (#[trigger] before[i]).visual != entry.visual,
    ensures
        format_of(before, entry.visual) is None,
        format_of(before + seq![entry] + after, entry.visual) == Some(entry.format),
        visuals_of_depths(depths.push(depth)) == visuals_of_depths(depths) + depth@,
        visuals_of_screens(screens.push(screen)) == visuals_of_screens(screens)
            + visuals_of_depths(screen@),
    decreases before.len(),
{
    assert(depths.push(depth).drop_last() =~= depths);
    assert(screens.push(screen).drop_last() =~= screens);
    if before.len() > 0 {
        let shorter = before.drop_last();
        assert forall|i: int| 0 <= i < shorter.len() implies (#[trigger] shorter[i]).visual
            != entry.visual by {
            assert(shorter[i] == before[i]);
        }
        law_first_entry_of_a_visual_counts(
            shorter,
            entry,
            after,
            depths,
            depth,
            screens,
            screen,
        );
        assert(before[before.len() - 1].visual != entry.visual);
    }
    lemma_format_of_concat(before + seq![entry], after, entry.visual);
    assert((before + seq![entry]).drop_last() =~= before);
    assert((before + seq![entry]).last() == entry);
}

/// A thumbnail that was made leaves a slot that gives back exactly what the setup took: its
/// picture, its pixmap and the redirection of its window. One that was not leaves a slot that
/// gives back nothing, and says what went wrong.
pub proof fn law_slots_give_back_what_was_taken(
    setup: ThumbnailSetup,
    slot: Option<ThumbnailSlot>,
)
    requires
        setup.sound(),
        setup.leaves(slot),
    ensures
        setup.stage == ThumbnailStage::Ready ==> {
            &&& slot is Some
            &&& slot_released(slot->0) == seq![
                Release::Picture(setup.picture->0),
                Release::Pixmap(setup.pixmap->0),
                Release::Redirection(setup.window),
            ]
            &&& slot->0.state matches ThumbnailState::Ready(thumbnail)
            &&& thumbnail.width == setup.width
            &&& thumbnail.height == setup.height
        },
        setup.stage == ThumbnailStage::Failed ==> {
            &&& slot is Some
            &&& slot_released(slot->0).len() == 0
            &&& slot->0.window == setup.window
            &&& slot->0.state matches ThumbnailState::Error(message)
            &&& message@ == setup.error->0.spec_message()
        },
        setup.next() != ThumbnailAction::Nothing ==> slot is None,
{
    if setup.stage == ThumbnailStage::Ready {
        assert(slot_released(slot->0) =~= seq![
            Release::Picture(setup.picture->0),
            Release::Pixmap(setup.pixmap->0),
            Release::Redirection(setup.window),
        ]);
    }
}

/// Each failure of a thumbnail is told in its own words.
pub proof fn law_thumbnail_errors_are_told_in_words(error: ThumbnailError)
    ensures
        error.spec_message() == (match error {
            ThumbnailError::NoFormat { visual } => {
                "no XRender pict format for visual 0x"@ + text::hex(visual as nat, 8)
            },
            ThumbnailError::Redirect(Fault::Send) => "failed to request XComposite redirect"@,
            ThumbnailError::Redirect(Fault::Reply) => "XComposite rejected redirect for window"@,
            ThumbnailError::AllocatePixmap => "failed to allocate pixmap id"@,
            ThumbnailError::NamePixmap(Fault::Send) => "failed to request named window pixmap"@,
            ThumbnailError::NamePixmap(Fault::Reply) => {
                "XComposite could not name the window pixmap"@
            },
            ThumbnailError::AllocatePicture => "failed to allocate picture id"@,
            ThumbnailError::CreatePicture(Fault::Send) => {
                "failed to create source picture for thumbnail"@
            },
            ThumbnailError::CreatePicture(Fault::Reply) => {
                "XRender rejected source picture for thumbnail"@
            },
        }),
{
}

/// A size that was taken is the size that is drawn, and taking it again is no change; windows and
/// what is held of the server stay.
pub proof fn law_sizes_are_taken_once(
    renderer: Renderer,
    width: u16,
    height: u16,
    slots: Seq<ThumbnailSlot>,
    selected: usize,
)
    requires
        width > 0,
        height > 0,
    ensures
        ({
            let next = renderer.with_size(width, height);
            &&& !next.has_other_size(width, height)
            &&& renderer.has_other_size(width, height) <==> next != renderer
            &&& next.thumbnails == renderer.thumbnails
            &&& next.overlay.window == renderer.overlay.window
            &&& next.overlay.picture == renderer.overlay.picture
            &&& next.overlay.gcs == renderer.overlay.gcs
            &&& frame(next.overlay, slots, seq![], seq![], selected) == seq![
                Step::Fill {
                    rect: Rect { x: 0, y: 0, width, height },
                    shade: Shade::Background,
                },
            ]
        }),
{
    let next = renderer.with_size(width, height);
    let drawn = frame(next.overlay, slots, seq![], seq![], selected);
    assert(items_drawn(slots, seq![], seq![], selected, 0) =~= seq![]);
    assert(drawn =~= seq![
        Step::Fill { rect: Rect { x: 0, y: 0, width, height }, shade: Shade::Background },
    ]);
}

/// A thumbnail that is put in a slot is the one that is there, for the same window, and the slot
/// holds nothing else then; the other slots stay.
pub proof fn law_replacing_changes_one_slot(
    renderer: Renderer,
    index: int,
    other: int,
    state: ThumbnailState,
    next: Renderer,
)
    requires
        0 <= index < renderer.thumbnails@.len(),
        0 <= other < renderer.thumbnails@.len(),
        renderer.replaces(index, state, next),
    ensures
        next.thumbnails@.len() == renderer.thumbnails@.len(),
        next.thumbnails@[index].state == state,
        next.thumbnails@[index].window == renderer.thumbnails@[index].window,
        other != index ==> next.thumbnails@[other] == renderer.thumbnails@[other],
        !slot_released(next.thumbnails@[index]).contains(
            Release::Redirection(renderer.thumbnails@[index].window),
        ),
        next.overlay == renderer.overlay,
{
    let list = slot_released(next.thumbnails@[index]);
    assert forall|i: int| 0 <= i < list.len() implies !(#[trigger] list[i] is Redirection) by {}
}

}
