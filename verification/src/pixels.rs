//! Pixels: between the layouts that an X server uses and plain RGBA images.

use vstd::arithmetic::div_mod::*;
use vstd::prelude::*;
use vstd::std_specs::bits::*;

use crate::text;

verus! {

/// An image of four bytes a pixel: red, green, blue and alpha, row by row.
#[derive(Debug)]
pub struct RgbaImage {
    pub width: u32,
    pub height: u32,
    pub pixels: Vec<u8>,
}

impl RgbaImage {
    /// There are as many bytes as the size asks for.
    pub open spec fn valid(self) -> bool {
        self.pixels@.len() == 4 * (self.width * self.height)
    }

    /// The byte of a channel of a pixel, counted row by row.
    pub open spec fn channel(self, pixel: int, channel: int) -> u8 {
        self.pixels@[4 * pixel + channel]
    }
}

impl Clone for RgbaImage {
    fn clone(&self) -> (copy: Self)
        ensures
            copy.width == self.width,
            copy.height == self.height,
            copy.pixels@ == self.pixels@,
    {
        RgbaImage { width: self.width, height: self.height, pixels: self.pixels.clone() }
    }
}

/// How pixmaps of a depth are laid out.
#[derive(Debug, Clone, Copy)]
pub struct PixmapFormat {
    pub depth: u8,
    pub bits_per_pixel: u8,
    pub scanline_pad: u8,
}

/// Which bits of a pixel hold which color.
#[derive(Debug, Clone, Copy)]
pub struct VisualType {
    pub visual_id: u32,
    pub red_mask: u32,
    pub green_mask: u32,
    pub blue_mask: u32,
}

/// What an X server says of its pixel layouts: the formats of pixmaps, the visuals of each depth
/// of each screen, and the order of bytes in an image.
#[derive(Debug)]
pub struct DisplayFormats {
    pub pixmap_formats: Vec<PixmapFormat>,
    pub screens: Vec<Vec<Vec<VisualType>>>,
    pub lsb_first: bool,
}

/// The layout of the pixels of one image.
#[derive(Debug, Clone, Copy)]
pub struct PixelFormat {
    pub bits_per_pixel: u8,
    pub bytes_per_pixel: usize,
    pub scanline_pad: u8,
    pub red_mask: u32,
    pub green_mask: u32,
    pub blue_mask: u32,
    pub lsb_first: bool,
}

/// Why pixels cannot be converted.
#[derive(Debug, Clone, Copy, PartialEq, Eq, Structural)]
pub enum PixelError {
    /// The server has no pixmap format for the depth.
    NoPixmapFormat { depth: u8 },
    /// The server has no visual of that number.
    NoVisual { visual: u32, depth: u8 },
    /// A pixel takes no byte, or more than four.
    UnsupportedBits { bits_per_pixel: u8, depth: u8 },
    /// The size of the image cannot be counted.
    StrideOverflow,
    /// There is less data than the image takes.
    TooShort { got: usize, need: usize },
    /// The image is wider than an X11 image can be.
    TooWide,
    /// The image is taller than an X11 image can be.
    TooTall,
}

impl PixelError {
    /// What went wrong, in words.
    pub open spec fn spec_message(self) -> Seq<char> {
        match self {
            PixelError::NoPixmapFormat { depth } => {
                "no X11 pixmap format for depth "@ + text::decimal(depth as nat)
            },
            PixelError::NoVisual { visual, depth } => {
                "no X11 visual masks for visual 0x"@ + text::hex(visual as nat, 8) + " at depth "@
                    + text::decimal(depth as nat)
            },
            PixelError::UnsupportedBits { bits_per_pixel, depth } => {
                "unsupported X11 bits_per_pixel="@ + text::decimal(bits_per_pixel as nat)
                    + " for depth "@ + text::decimal(depth as nat)
            },
            PixelError::StrideOverflow => "XImage stride overflow"@,
            PixelError::TooShort { got, need } => {
                "XImage data is too short: got "@ + text::decimal(got as nat)
                    + " bytes, need at least "@ + text::decimal(need as nat)
            },
            PixelError::TooWide => "image too wide for X11 put_image"@,
            PixelError::TooTall => "image too tall for X11 put_image"@,
        }
    }

    /// What went wrong, in words.
    pub fn message(self) -> (message: String)
        ensures
            message@ == self.spec_message(),
    {
        match self {
            PixelError::NoPixmapFormat { depth } => {
                let mut message: String = "no X11 pixmap format for depth ".to_owned();
                text::push_decimal(&mut message, depth as u128);
                message
            },
            PixelError::NoVisual { visual, depth } => {
                let mut message: String = "no X11 visual masks for visual 0x".to_owned();
                text::push_hex(&mut message, visual as u64, 8);
                message.append(" at depth ");
                text::push_decimal(&mut message, depth as u128);
                message
            },
            PixelError::UnsupportedBits { bits_per_pixel, depth } => {
                let mut message: String = "unsupported X11 bits_per_pixel=".to_owned();
                text::push_decimal(&mut message, bits_per_pixel as u128);
                message.append(" for depth ");
                text::push_decimal(&mut message, depth as u128);
                message
            },
            PixelError::StrideOverflow => "XImage stride overflow".to_owned(),
            PixelError::TooShort { got, need } => {
                let mut message: String = "XImage data is too short: got ".to_owned();
                text::push_decimal(&mut message, got as u128);
                message.append(" bytes, need at least ");
                text::push_decimal(&mut message, need as u128);
                message
            },
            PixelError::TooWide => "image too wide for X11 put_image".to_owned(),
            PixelError::TooTall => "image too tall for X11 put_image".to_owned(),
        }
    }
}

/// The first format of the depth.
pub open spec fn format_of_depth(formats: Seq<PixmapFormat>, depth: u8) -> Option<PixmapFormat>
    decreases formats.len(),
{
    if formats.len() == 0 {
        None
    } else if formats[0].depth == depth {
        Some(formats[0])
    } else {
        format_of_depth(formats.drop_first(), depth)
    }
}

/// The visuals of all depths, in order.
pub open spec fn visuals_of_depths(depths: Seq<Vec<VisualType>>) -> Seq<VisualType>
    decreases depths.len(),
{
    if depths.len() == 0 {
        Seq::empty()
    } else {
        depths[0]@ + visuals_of_depths(depths.drop_first())
    }
}

/// The visuals of all depths of all screens, in order.
pub open spec fn visuals_of_screens(screens: Seq<Vec<Vec<VisualType>>>) -> Seq<VisualType>
    decreases screens.len(),
{
    if screens.len() == 0 {
        Seq::empty()
    } else {
        visuals_of_depths(screens[0]@) + visuals_of_screens(screens.drop_first())
    }
}

/// The first visual of that number.
pub open spec fn visual_of_id(visuals: Seq<VisualType>, visual: u32) -> Option<VisualType>
    decreases visuals.len(),
{
    if visuals.len() == 0 {
        None
    } else if visuals[0].visual_id == visual {
        Some(visuals[0])
    } else {
        visual_of_id(visuals.drop_first(), visual)
    }
}

proof fn lemma_visual_of_concat(first: Seq<VisualType>, second: Seq<VisualType>, visual: u32)
    ensures
        visual_of_id(first + second, visual) == match visual_of_id(first, visual) {
            Some(found) => Some(found),
            None => visual_of_id(second, visual),
        },
    decreases first.len(),
{
    if first.len() == 0 {
        assert(first + second =~= second);
    } else {
        assert((first + second).drop_first() =~= first.drop_first() + second);
        lemma_visual_of_concat(first.drop_first(), second, visual);
    }
}

fn find_format(formats: &Vec<PixmapFormat>, depth: u8) -> (found: Option<PixmapFormat>)
    ensures
        found == format_of_depth(formats@, depth),
{
    let mut i: usize = 0;
    assert(formats@.skip(0) =~= formats@);
    while i < formats.len()
        invariant
            i <= formats.len(),
            format_of_depth(formats@, depth) == format_of_depth(formats@.skip(i as int), depth),
        decreases formats.len() - i,
    {
        if formats[i].depth == depth {
            return Some(formats[i]);
        }
        assert(formats@.skip(i as int).drop_first() =~= formats@.skip(i + 1));
        i += 1;
    }
    None
}

fn find_in_depth(visuals: &Vec<VisualType>, visual: u32) -> (found: Option<VisualType>)
    ensures
        found == visual_of_id(visuals@, visual),
{
    let mut i: usize = 0;
    assert(visuals@.skip(0) =~= visuals@);
    while i < visuals.len()
        invariant
            i <= visuals.len(),
            visual_of_id(visuals@, visual) == visual_of_id(visuals@.skip(i as int), visual),
        decreases visuals.len() - i,
    {
        if visuals[i].visual_id == visual {
            return Some(visuals[i]);
        }
        assert(visuals@.skip(i as int).drop_first() =~= visuals@.skip(i + 1));
        i += 1;
    }
    None
}

fn find_in_screen(depths: &Vec<Vec<VisualType>>, visual: u32) -> (found: Option<VisualType>)
    ensures
        found == visual_of_id(visuals_of_depths(depths@), visual),
{
    let mut i: usize = 0;
    assert(depths@.skip(0) =~= depths@);
    while i < depths.len()
        invariant
            i <= depths.len(),
            visual_of_id(visuals_of_depths(depths@), visual) == visual_of_id(
                visuals_of_depths(depths@.skip(i as int)),
                visual,
            ),
        decreases depths.len() - i,
    {
        let ghost rest = depths@.skip(i as int);
        proof {
            assert(rest.drop_first() =~= depths@.skip(i + 1));
            lemma_visual_of_concat(rest[0]@, visuals_of_depths(rest.drop_first()), visual);
        }
        let found: Option<VisualType> = find_in_depth(&depths[i], visual);
        if found.is_some() {
            return found;
        }
        i += 1;
    }
    None
}

/// The first visual of that number among all depths of all screens.
pub fn find_visual(setup: &DisplayFormats, visual: u32) -> (found: Option<VisualType>)
    ensures
        found == visual_of_id(visuals_of_screens(setup.screens@), visual),
{
    let mut i: usize = 0;
    assert(setup.screens@.skip(0) =~= setup.screens@);
    while i < setup.screens.len()
        invariant
            i <= setup.screens.len(),
            visual_of_id(visuals_of_screens(setup.screens@), visual) == visual_of_id(
                visuals_of_screens(setup.screens@.skip(i as int)),
                visual,
            ),
        decreases setup.screens.len() - i,
    {
        let ghost rest = setup.screens@.skip(i as int);
        proof {
            assert(rest.drop_first() =~= setup.screens@.skip(i + 1));
            lemma_visual_of_concat(
                visuals_of_depths(rest[0]@),
                visuals_of_screens(rest.drop_first()),
                visual,
            );
        }
        let found: Option<VisualType> = find_in_screen(&setup.screens[i], visual);
        if found.is_some() {
            return found;
        }
        i += 1;
    }
    None
}

/// The layout of images of a visual and depth, or why there is none.
pub open spec fn format_for(
    setup: DisplayFormats,
    visual: u32,
    depth: u8,
) -> Result<PixelFormat, PixelError> {
    match format_of_depth(setup.pixmap_formats@, depth) {
        None => Err(PixelError::NoPixmapFormat { depth }),
        Some(format) => match visual_of_id(visuals_of_screens(setup.screens@), visual) {
            None => Err(PixelError::NoVisual { visual, depth }),
            Some(masks) => {
                let bytes = crate::layout::quotient_up(format.bits_per_pixel as int, 8);
                if bytes == 0 || bytes > 4 {
                    Err(
                        PixelError::UnsupportedBits {
                            bits_per_pixel: format.bits_per_pixel,
                            depth,
                        },
                    )
                } else {
                    Ok(
                        PixelFormat {
                            bits_per_pixel: format.bits_per_pixel,
                            bytes_per_pixel: bytes as usize,
                            scanline_pad: format.scanline_pad,
                            red_mask: masks.red_mask,
                            green_mask: masks.green_mask,
                            blue_mask: masks.blue_mask,
                            lsb_first: setup.lsb_first,
                        },
                    )
                }
            },
        },
    }
}

/// Finds the layout of images of a visual and depth.
pub fn pixel_format(
    setup: &DisplayFormats,
    visual: u32,
    depth: u8,
) -> (format: Result<PixelFormat, PixelError>)
    ensures
        format == format_for(*setup, visual, depth),
{
    let found: Option<PixmapFormat> = find_format(&setup.pixmap_formats, depth);
    if found.is_none() {
        return Err(PixelError::NoPixmapFormat { depth });
    }
    let format: PixmapFormat = found.unwrap();
    let found: Option<VisualType> = find_visual(setup, visual);
    if found.is_none() {
        return Err(PixelError::NoVisual { visual, depth });
    }
    let masks: VisualType = found.unwrap();
    let extra: u8 = if format.bits_per_pixel % 8 > 0 {
        1
    } else {
        0
    };
    let bytes: u8 = format.bits_per_pixel / 8 + extra;
    if bytes == 0 || bytes > 4 {
        return Err(PixelError::UnsupportedBits { bits_per_pixel: format.bits_per_pixel, depth });
    }
    Ok(
        PixelFormat {
            bits_per_pixel: format.bits_per_pixel,
            bytes_per_pixel: bytes as usize,
            scanline_pad: format.scanline_pad,
            red_mask: masks.red_mask,
            green_mask: masks.green_mask,
            blue_mask: masks.blue_mask,
            lsb_first: setup.lsb_first,
        },
    )
}

/// The bytes of a row: its bits, filled up to the padding of a row, which is at least a byte.
pub open spec fn row_bytes(width: nat, bits_per_pixel: nat, scanline_pad: nat) -> nat {
    let pad = if scanline_pad > 8 {
        scanline_pad as int
    } else {
        8
    };
    (crate::layout::quotient_up((width * bits_per_pixel) as int, pad) * pad / 8) as nat
}

/// The bytes of a row.
pub fn stride(width: u16, bits_per_pixel: u8, scanline_pad: u8) -> (bytes: usize)
    ensures
        bytes == row_bytes(width as nat, bits_per_pixel as nat, scanline_pad as nat),
        bytes <= 0x20_0000,
{
    assert(0 <= width * bits_per_pixel <= 0xffff * 0xff) by (nonlinear_arith)
        requires
            0 <= width <= 0xffff,
            0 <= bits_per_pixel <= 0xff,
    ;
    let bits: u32 = width as u32 * bits_per_pixel as u32;
    let pad: u32 = if scanline_pad > 8 {
        scanline_pad as u32
    } else {
        8
    };
    let extra: u32 = if bits % pad > 0 {
        1
    } else {
        0
    };
    assert(0 <= bits / pad <= bits && 0 <= (bits / pad + extra) * pad <= bits + pad)
        by (nonlinear_arith)
        requires
            0 <= extra <= 1,
            pad >= 8,
            bits >= 0,
    ;
    ((bits / pad + extra) * pad / 8) as usize
}

/// The number whose least significant byte comes first.
pub open spec fn little_endian(bytes: Seq<u8>) -> nat
    decreases bytes.len(),
{
    if bytes.len() == 0 {
        0
    } else {
        bytes[0] as nat + 256 * little_endian(bytes.drop_first())
    }
}

/// The number whose most significant byte comes first.
pub open spec fn big_endian(bytes: Seq<u8>) -> nat
    decreases bytes.len(),
{
    if bytes.len() == 0 {
        0
    } else {
        256 * big_endian(bytes.drop_last()) + bytes.last() as nat
    }
}

/// The number that the bytes of a pixel hold.
pub open spec fn pixel_value(bytes: Seq<u8>, lsb_first: bool) -> nat {
    if lsb_first {
        little_endian(bytes)
    } else {
        big_endian(bytes)
    }
}

/// The first number that `count` bytes cannot hold.
pub open spec fn byte_bound(count: nat) -> nat
    decreases count,
{
    if count == 0 {
        1
    } else {
        256 * byte_bound((count - 1) as nat)
    }
}

proof fn lemma_endian_bounds(bytes: Seq<u8>)
    ensures
        little_endian(bytes) < byte_bound(bytes.len()),
        big_endian(bytes) < byte_bound(bytes.len()),
    decreases bytes.len(),
{
    if bytes.len() > 0 {
        lemma_endian_bounds(bytes.drop_first());
        lemma_endian_bounds(bytes.drop_last());
    }
}

proof fn lemma_four_bytes(count: nat)
    requires
        count <= 4,
    ensures
        byte_bound(count) <= 0x1_0000_0000,
{
    reveal_with_fuel(byte_bound, 5);
}

/// Reads a pixel from its first `bytes_per_pixel` bytes, at most four.
pub fn read_pixel(bytes: &[u8], bytes_per_pixel: usize, lsb_first: bool) -> (pixel: u32)
    requires
        bytes_per_pixel <= 4,
    ensures
        pixel == pixel_value(
            bytes@.take(if bytes_per_pixel < bytes@.len() {
                bytes_per_pixel as int
            } else {
                bytes@.len() as int
            }),
            lsb_first,
        ),
{
    let count: usize = if bytes_per_pixel < bytes.len() {
        bytes_per_pixel
    } else {
        bytes.len()
    };
    let ghost taken = bytes@.take(count as int);
    let mut value: u32 = 0;
    if lsb_first {
        let mut left: usize = count;
        assert(taken.skip(count as int) =~= Seq::<u8>::empty());
        while left > 0
            invariant
                left <= count <= 4,
                count <= bytes.len(),
                taken == bytes@.take(count as int),
                value == little_endian(taken.skip(left as int)),
            decreases left,
        {
            let ghost rest = taken.skip(left - 1);
            proof {
                assert(rest.drop_first() =~= taken.skip(left as int));
                lemma_endian_bounds(rest);
                lemma_four_bytes(rest.len());
            }
            left -= 1;
            value = value * 256 + bytes[left] as u32;
        }
        assert(taken.skip(0) =~= taken);
    } else {
        let mut done: usize = 0;
        assert(taken.take(0) =~= Seq::<u8>::empty());
        while done < count
            invariant
                done <= count <= 4,
                count <= bytes.len(),
                taken == bytes@.take(count as int),
                value == big_endian(taken.take(done as int)),
            decreases count - done,
        {
            let ghost longer = taken.take(done + 1);
            proof {
                assert(longer.drop_last() =~= taken.take(done as int));
                lemma_endian_bounds(longer);
                lemma_four_bytes(longer.len());
            }
            value = value * 256 + bytes[done] as u32;
            done += 1;
        }
        assert(taken.take(count as int) =~= taken);
    }
    value
}

/// The last `count` bytes of a number, the least significant one first.
pub open spec fn little_bytes(number: nat, count: nat) -> Seq<u8>
    decreases count,
{
    if count == 0 {
        Seq::empty()
    } else {
        seq![(number % 256) as u8] + little_bytes(number / 256, (count - 1) as nat)
    }
}

/// The last `count` bytes of a number, the most significant one first.
pub open spec fn big_bytes(number: nat, count: nat) -> Seq<u8>
    decreases count,
{
    if count == 0 {
        Seq::empty()
    } else {
        big_bytes(number / 256, (count - 1) as nat).push((number % 256) as u8)
    }
}

/// The bytes of a pixel.
pub open spec fn pixel_bytes(pixel: nat, count: nat, lsb_first: bool) -> Seq<u8> {
    if lsb_first {
        little_bytes(pixel, count)
    } else {
        big_bytes(pixel, count)
    }
}

proof fn lemma_bytes_length(number: nat, count: nat)
    ensures
        little_bytes(number, count).len() == count,
        big_bytes(number, count).len() == count,
    decreases count,
{
    if count > 0 {
        lemma_bytes_length(number / 256, (count - 1) as nat);
    }
}

/// A pixel is read back as it was written, without what its bytes cannot hold: as it was where
/// it fits them.
pub proof fn law_pixel_bytes_read_back(pixel: nat, count: nat, lsb_first: bool)
    ensures
        pixel_value(pixel_bytes(pixel, count, lsb_first), lsb_first) == pixel % byte_bound(count),
        pixel < byte_bound(count) ==> pixel_value(
            pixel_bytes(pixel, count, lsb_first),
            lsb_first,
        ) == pixel,
        pixel_bytes(pixel, count, lsb_first).len() == count,
        byte_bound(count) > 0,
    decreases count,
{
    lemma_bytes_length(pixel, count);
    if count > 0 {
        let rest = (count - 1) as nat;
        law_pixel_bytes_read_back(pixel / 256, rest, lsb_first);
        lemma_bytes_length(pixel / 256, rest);
        vstd::arithmetic::div_mod::lemma_breakdown(pixel as int, 256, byte_bound(rest) as int);
        if lsb_first {
            assert(little_bytes(pixel, count).drop_first() =~= little_bytes(pixel / 256, rest));
        } else {
            assert(big_bytes(pixel, count).drop_last() =~= big_bytes(pixel / 256, rest));
        }
    }
    vstd::arithmetic::div_mod::lemma_mod_division_less_than_divisor(
        pixel as int,
        byte_bound(count) as int,
    );
    if pixel < byte_bound(count) {
        vstd::arithmetic::div_mod::lemma_small_mod(pixel, byte_bound(count));
    }
}

/// The two orders of bytes mirror each other: a pixel is written in one as in the other
/// reversed, and bytes are read in one as they are reversed in the other.
pub proof fn law_byte_orders_mirror(pixel: nat, count: nat, bytes: Seq<u8>, lsb_first: bool)
    ensures
        pixel_bytes(pixel, count, lsb_first) == pixel_bytes(pixel, count, !lsb_first).reverse(),
        pixel_value(bytes, lsb_first) == pixel_value(bytes.reverse(), !lsb_first),
{
    lemma_bytes_mirror(pixel, count);
    assert(big_bytes(pixel, count).reverse() =~= little_bytes(pixel, count));
    lemma_values_mirror(bytes);
    lemma_values_mirror(bytes.reverse());
    assert(bytes.reverse().reverse() =~= bytes);
}

proof fn lemma_bytes_mirror(number: nat, count: nat)
    ensures
        big_bytes(number, count) == little_bytes(number, count).reverse(),
    decreases count,
{
    lemma_bytes_length(number, count);
    if count > 0 {
        let rest = (count - 1) as nat;
        lemma_bytes_mirror(number / 256, rest);
        lemma_bytes_length(number / 256, rest);
    }
    assert(big_bytes(number, count) =~= little_bytes(number, count).reverse());
}

proof fn lemma_values_mirror(bytes: Seq<u8>)
    ensures
        little_endian(bytes) == big_endian(bytes.reverse()),
    decreases bytes.len(),
{
    if bytes.len() > 0 {
        lemma_values_mirror(bytes.drop_first());
        assert(bytes.reverse().drop_last() =~= bytes.drop_first().reverse());
    }
}

/// `out` with `bytes` in place of those from `offset` on.
pub open spec fn overwritten(out: Seq<u8>, offset: int, bytes: Seq<u8>) -> Seq<u8> {
    out.take(offset) + bytes + out.skip(offset + bytes.len())
}

/// Writes a pixel into `count` bytes from `offset` on.
pub fn write_pixel(pixel: u32, out: &mut Vec<u8>, offset: usize, count: usize, lsb_first: bool)
    requires
        offset + count <= old(out)@.len(),
        count <= 4,
    ensures
        final(out)@ == overwritten(
            old(out)@,
            offset as int,
            pixel_bytes(pixel as nat, count as nat, lsb_first),
        ),
{
    let ghost start = out@;
    let size: usize = out.len();
    let mut rest: u32 = pixel;
    let mut done: usize = 0;
    proof {
        lemma_bytes_length(pixel as nat, count as nat);
    }
    if lsb_first {
        assert(overwritten(start, offset as int, little_bytes(pixel as nat, count as nat))
            =~= overwritten(
            out@,
            offset + done,
            little_bytes(rest as nat, (count - done) as nat),
        ));
        while done < count
            invariant
                done <= count <= 4,
                offset + count <= size,
                out@.len() == size,
                overwritten(start, offset as int, little_bytes(pixel as nat, count as nat))
                    == overwritten(
                    out@,
                    offset + done,
                    little_bytes(rest as nat, (count - done) as nat),
                ),
            decreases count - done,
        {
            let ghost before = out@;
            let ghost left = (count - done) as nat;
            let ghost number = rest as nat;
            proof {
                lemma_bytes_length(number, left);
                lemma_bytes_length(number / 256, (left - 1) as nat);
            }
            out.set(offset + done, (rest % 256) as u8);
            rest = rest / 256;
            done += 1;
            assert(overwritten(before, offset + done - 1, little_bytes(number, left))
                =~= overwritten(
                out@,
                offset + done,
                little_bytes(number / 256, (left - 1) as nat),
            ));
        }
        assert(overwritten(out@, offset + done, little_bytes(rest as nat, 0)) =~= out@);
    } else {
        assert(overwritten(start, offset as int, big_bytes(pixel as nat, count as nat))
            =~= overwritten(out@, offset as int, big_bytes(rest as nat, (count - done) as nat)));
        while done < count
            invariant
                done <= count <= 4,
                offset + count <= size,
                out@.len() == size,
                overwritten(start, offset as int, big_bytes(pixel as nat, count as nat))
                    == overwritten(
                    out@,
                    offset as int,
                    big_bytes(rest as nat, (count - done) as nat),
                ),
            decreases count - done,
        {
            let ghost before = out@;
            let ghost left = (count - done) as nat;
            let ghost number = rest as nat;
            proof {
                lemma_bytes_length(number, left);
                lemma_bytes_length(number / 256, (left - 1) as nat);
            }
            out.set(offset + (count - done - 1), (rest % 256) as u8);
            rest = rest / 256;
            done += 1;
            assert(overwritten(before, offset as int, big_bytes(number, left)) =~= overwritten(
                out@,
                offset as int,
                big_bytes(number / 256, (left - 1) as nat),
            ));
        }
        assert(overwritten(out@, offset as int, big_bytes(rest as nat, 0)) =~= out@);
    }
}

/// How far a channel's bits stand from the least significant one.
pub open spec fn channel_shift(mask: u32) -> u32 {
    u32_trailing_zeros(mask)
}

/// The largest number that a channel holds.
pub open spec fn channel_max(mask: u32) -> u32 {
    mask >> channel_shift(mask)
}

/// A channel of a pixel, scaled from what the channel can hold to 255 and rounded.
pub open spec fn extracted(pixel: u32, mask: u32) -> int {
    if mask == 0 {
        0
    } else {
        let value = (pixel & mask) >> channel_shift(mask);
        (value * 255 + channel_max(mask) / 2) / channel_max(mask) as int
    }
}

/// A channel of 255 steps, scaled to what the mask can hold and moved to its bits.
pub open spec fn encoded(channel: u8, mask: u32) -> u32 {
    if mask == 0 {
        0
    } else {
        let value = (channel * channel_max(mask) + 127) / 255;
        ((value as u32) << channel_shift(mask)) & mask
    }
}

proof fn lemma_channel(mask: u32)
    requires
        mask != 0,
    ensures
        channel_shift(mask) < 32,
        channel_max(mask) > 0,
{
    axiom_u32_trailing_zeros(mask);
    let shift = channel_shift(mask);
    let max = channel_max(mask);
    assert(max & 1 == 1 ==> max > 0) by (bit_vector);
}

proof fn lemma_extracted_bound(pixel: u32, mask: u32)
    ensures
        0 <= extracted(pixel, mask) <= 255,
{
    if mask != 0 {
        lemma_channel(mask);
        let shift = channel_shift(mask);
        let max = channel_max(mask);
        let value = (pixel & mask) >> shift;
        assert((pixel & mask) >> shift <= mask >> shift) by (bit_vector)
            requires
                shift < 32,
        ;
        assert(0 <= (value * 255 + max / 2) / (max as int) <= 255) by (nonlinear_arith)
            requires
                0 <= value <= max,
                max > 0,
        ;
    }
}

/// A channel of a pixel.
pub fn extract_channel(pixel: u32, mask: u32) -> (channel: u8)
    ensures
        channel == extracted(pixel, mask),
{
    proof {
        lemma_extracted_bound(pixel, mask);
    }
    if mask == 0 {
        return 0;
    }
    proof {
        lemma_channel(mask);
    }
    let shift: u32 = mask.trailing_zeros();
    let max: u64 = (mask >> shift) as u64;
    let value: u64 = ((pixel & mask) >> shift) as u64;
    ((value * 255 + max / 2) / max) as u8
}

proof fn lemma_scaled_bound(channel: u8, max: u32)
    ensures
        0 <= (channel * max + 127) / 255 <= max,
{
    assert(0 <= (channel * max + 127) / 255 <= max) by (nonlinear_arith)
        requires
            0 <= channel <= 255,
            0 <= max,
    ;
}

/// A channel in the bits of its mask.
pub fn encode_channel(channel: u8, mask: u32) -> (bits: u32)
    ensures
        bits == encoded(channel, mask),
{
    if mask == 0 {
        return 0;
    }
    proof {
        lemma_channel(mask);
        lemma_scaled_bound(channel, channel_max(mask));
    }
    let shift: u32 = mask.trailing_zeros();
    let max: u64 = (mask >> shift) as u64;
    assert(channel * max <= 255 * 0xffff_ffff) by (nonlinear_arith)
        requires
            0 <= channel <= 255,
            0 <= max <= 0xffff_ffff,
    ;
    let value: u32 = ((channel as u64 * max + 127) / 255) as u32;
    (value << shift) & mask
}

impl PixelFormat {
    /// A pixel takes one to four bytes.
    pub open spec fn valid(self) -> bool {
        1 <= self.bytes_per_pixel <= 4
    }

    pub open spec fn stride(self, width: nat) -> nat {
        row_bytes(width, self.bits_per_pixel as nat, self.scanline_pad as nat)
    }

    /// Where a pixel, counted row by row, starts in the data.
    pub open spec fn offset(self, width: nat, pixel: int) -> int {
        (pixel / width as int) * self.stride(width) + (pixel % width as int) * self.bytes_per_pixel
    }

    /// Where the last pixel ends.
    pub open spec fn end(self, width: nat, height: nat) -> int {
        if width == 0 || height == 0 {
            0
        } else {
            (height - 1) * self.stride(width) + width * self.bytes_per_pixel
        }
    }

    /// The number that a pixel of the data holds.
    pub open spec fn pixel(self, data: Seq<u8>, width: nat, pixel: int) -> u32 {
        let start = self.offset(width, pixel);
        pixel_value(data.subrange(start, start + self.bytes_per_pixel), self.lsb_first) as u32
    }

    /// The image that the data holds: opaque, with each channel scaled to 255.
    pub open spec fn decodes_to(
        self,
        data: Seq<u8>,
        width: u16,
        height: u16,
        image: RgbaImage,
    ) -> bool {
        &&& image.width == width
        &&& image.height == height
        &&& image.valid()
        &&& forall|i: int|
            #![trigger image.channel(i, 0)]
            #![trigger image.channel(i, 1)]
            #![trigger image.channel(i, 2)]
            #![trigger image.channel(i, 3)]
            0 <= i < width * height ==> {
                let pixel = self.pixel(data, width as nat, i);
                &&& image.channel(i, 0) == extracted(pixel, self.red_mask)
                &&& image.channel(i, 1) == extracted(pixel, self.green_mask)
                &&& image.channel(i, 2) == extracted(pixel, self.blue_mask)
                &&& image.channel(i, 3) == 255
            }
    }

    /// The number that stands for a pixel of an image.
    pub open spec fn number(self, image: RgbaImage, pixel: int) -> u32 {
        encoded(image.channel(pixel, 0), self.red_mask) | encoded(
            image.channel(pixel, 1),
            self.green_mask,
        ) | encoded(image.channel(pixel, 2), self.blue_mask)
    }

    /// The data once the first `count` pixels of an image are written over zeros, in order.
    pub open spec fn painted(self, image: RgbaImage, count: nat) -> Seq<u8>
        decreases count,
    {
        if count == 0 {
            Seq::new(self.stride(image.width as nat) * image.height as nat, |i: int| 0u8)
        } else {
            overwritten(
                self.painted(image, (count - 1) as nat),
                self.offset(image.width as nat, count - 1),
                pixel_bytes(
                    self.number(image, count - 1) as nat,
                    self.bytes_per_pixel as nat,
                    self.lsb_first,
                ),
            )
        }
    }
}

/// A pixel inside the image ends at or before the last one does.
proof fn lemma_offset(format: PixelFormat, width: nat, height: nat, x: int, y: int)
    requires
        0 <= x < width,
        0 <= y < height,
    ensures
        format.offset(width, y * width + x) == y * format.stride(width) + x
            * format.bytes_per_pixel,
        0 <= y * format.stride(width),
        0 <= x * format.bytes_per_pixel,
        format.offset(width, y * width + x) + format.bytes_per_pixel <= format.end(width, height),
        0 <= y * width + x < width * height,
        (y + 1) * width == y * width + width,
{
    let stride = format.stride(width) as int;
    let bytes = format.bytes_per_pixel as int;
    lemma_fundamental_div_mod_converse(y * width + x, width as int, y, x);
    assert(0 <= y * stride <= (height - 1) * stride && 0 <= x * bytes && x * bytes + bytes <= width
        * bytes) by (nonlinear_arith)
        requires
            0 <= x <= width - 1,
            0 <= y <= height - 1,
            0 <= stride,
            0 <= bytes,
    ;
    assert(0 <= y * width && y * width + x < width * height && (y + 1) * width == y * width
        + width) by (nonlinear_arith)
        requires
            0 <= x < width,
            0 <= y <= height - 1,
    ;
}

/// The conversion of the data reads no byte past its end.
pub open spec fn decodable(
    setup: DisplayFormats,
    visual: u32,
    depth: u8,
    width: u16,
    height: u16,
    data: Seq<u8>,
) -> bool {
    match format_for(setup, visual, depth) {
        Ok(format) => format.stride(width as nat) * height > data.len() || format.end(
            width as nat,
            height as nat,
        ) <= data.len(),
        Err(_) => true,
    }
}

fn decode(format: &PixelFormat, width: u16, height: u16, stride: usize, data: &[u8]) -> (image:
    RgbaImage)
    requires
        format.valid(),
        stride == format.stride(width as nat),
        format.end(width as nat, height as nat) <= data@.len(),
    ensures
        format.decodes_to(data@, width, height, image),
{
    let mut pixels: Vec<u8> = Vec::new();
    let mut y: u16 = 0;
    while y < height
        invariant
            format.valid(),
            stride == format.stride(width as nat),
            format.end(width as nat, height as nat) <= data@.len(),
            y <= height,
            pixels@.len() == 4 * (y * width),
            forall|i: int|
                0 <= i < y * width ==> #[trigger] decoded_pixel(*format, data@, width, pixels@, i),
        decreases height - y,
    {
        let mut x: u16 = 0;
        while x < width
            invariant
                format.valid(),
                stride == format.stride(width as nat),
                format.end(width as nat, height as nat) <= data@.len(),
                x <= width,
                y < height,
                pixels@.len() == 4 * (y * width + x),
                forall|i: int|
                    0 <= i < y * width + x ==> #[trigger] decoded_pixel(
                        *format,
                        data@,
                        width,
                        pixels@,
                        i,
                    ),
            decreases width - x,
        {
            let ghost index = y * width + x;
            let ghost before = pixels@;
            proof {
                lemma_offset(*format, width as nat, height as nat, x as int, y as int);
            }
            let size: usize = data.len();
            let offset: usize = y as usize * stride + x as usize * format.bytes_per_pixel;
            let part: &[u8] = vstd::slice::slice_subrange(
                data,
                offset,
                offset + format.bytes_per_pixel,
            );
            let pixel: u32 = read_pixel(part, format.bytes_per_pixel, format.lsb_first);
            assert(part@.take(format.bytes_per_pixel as int) =~= part@);
            pixels.push(extract_channel(pixel, format.red_mask));
            pixels.push(extract_channel(pixel, format.green_mask));
            pixels.push(extract_channel(pixel, format.blue_mask));
            pixels.push(255);
            assert forall|i: int| 0 <= i < index + 1 implies #[trigger] decoded_pixel(
                *format,
                data@,
                width,
                pixels@,
                i,
            ) by {
                if i < index {
                    assert(decoded_pixel(*format, data@, width, before, i));
                }
            }
            x += 1;
        }
        assert((y + 1) * width == y * width + width) by (nonlinear_arith);
        y += 1;
    }
    let image: RgbaImage = RgbaImage { width: width as u32, height: height as u32, pixels };
    assert(height * width == width * height) by (nonlinear_arith);
    assert forall|i: int|
        #![trigger image.channel(i, 0)]
        #![trigger image.channel(i, 1)]
        #![trigger image.channel(i, 2)]
        #![trigger image.channel(i, 3)]
        0 <= i < width * height implies {
        let pixel = format.pixel(data@, width as nat, i);
        &&& image.channel(i, 0) == extracted(pixel, format.red_mask)
        &&& image.channel(i, 1) == extracted(pixel, format.green_mask)
        &&& image.channel(i, 2) == extracted(pixel, format.blue_mask)
        &&& image.channel(i, 3) == 255
    } by {
        assert(decoded_pixel(*format, data@, width, pixels@, i));
    }
    image
}

/// The bytes of one pixel of an image are those that the data holds.
spec fn decoded_pixel(
    format: PixelFormat,
    data: Seq<u8>,
    width: u16,
    pixels: Seq<u8>,
    index: int,
) -> bool {
    let pixel = format.pixel(data, width as nat, index);
    &&& pixels[4 * index] == extracted(pixel, format.red_mask)
    &&& pixels[4 * index + 1] == extracted(pixel, format.green_mask)
    &&& pixels[4 * index + 2] == extracted(pixel, format.blue_mask)
    &&& pixels[4 * index + 3] == 255
}

/// Converts the data of an X11 image to RGBA.
pub fn ximage_to_rgba(
    setup: &DisplayFormats,
    visual: u32,
    depth: u8,
    width: u16,
    height: u16,
    data: &[u8],
) -> (image: Result<RgbaImage, PixelError>)
    requires
        decodable(*setup, visual, depth, width, height, data@),
    ensures
        match format_for(*setup, visual, depth) {
            Err(error) => image == Err::<RgbaImage, PixelError>(error),
            Ok(format) => {
                let need = format.stride(width as nat) * height;
                if need > usize::MAX {
                    image == Err::<RgbaImage, PixelError>(PixelError::StrideOverflow)
                } else if data@.len() < need {
                    image == Err::<RgbaImage, PixelError>(
                        PixelError::TooShort { got: data@.len() as usize, need: need as usize },
                    )
                } else {
                    image is Ok && format.decodes_to(data@, width, height, image->Ok_0)
                }
            },
        },
{
    let found: Result<PixelFormat, PixelError> = pixel_format(setup, visual, depth);
    let format: PixelFormat = match found {
        Ok(format) => format,
        Err(error) => {
            return Err(error);
        },
    };
    let stride: usize = stride(width, format.bits_per_pixel, format.scanline_pad);
    let size: usize = data.len();
    match stride.checked_mul(height as usize) {
        None => Err(PixelError::StrideOverflow),
        Some(required) => if size < required {
            Err(PixelError::TooShort { got: size, need: required })
        } else {
            Ok(decode(&format, width, height, stride, data))
        },
    }
}

/// The data of an image can be counted, and its last pixel ends inside it.
pub open spec fn encodable(
    setup: DisplayFormats,
    visual: u32,
    depth: u8,
    image: RgbaImage,
) -> bool {
    match format_for(setup, visual, depth) {
        Ok(format) => image.width <= 0xffff && image.height <= 0xffff ==> {
            let size = format.stride(image.width as nat) * image.height;
            size <= usize::MAX && format.end(image.width as nat, image.height as nat) <= size
        },
        Err(_) => true,
    }
}

/// Converts an image to the data of an X11 image of the given visual and depth.
pub fn rgba_to_zpixmap(setup: &DisplayFormats, visual: u32, depth: u8, image: &RgbaImage) -> (data:
    Result<Vec<u8>, PixelError>)
    requires
        image.valid(),
        encodable(*setup, visual, depth, *image),
    ensures
        match format_for(*setup, visual, depth) {
            Err(error) => data == Err::<Vec<u8>, PixelError>(error),
            Ok(format) => if image.width > 0xffff {
                data == Err::<Vec<u8>, PixelError>(PixelError::TooWide)
            } else if image.height > 0xffff {
                data == Err::<Vec<u8>, PixelError>(PixelError::TooTall)
            } else {
                data is Ok && data->Ok_0@ == format.painted(
                    *image,
                    (image.width * image.height) as nat,
                )
            },
        },
{
    let found: Result<PixelFormat, PixelError> = pixel_format(setup, visual, depth);
    let format: PixelFormat = match found {
        Ok(format) => format,
        Err(error) => {
            return Err(error);
        },
    };
    if image.width > 0xffff {
        return Err(PixelError::TooWide);
    }
    if image.height > 0xffff {
        return Err(PixelError::TooTall);
    }
    let width: u16 = image.width as u16;
    let height: u16 = image.height as u16;
    let stride: usize = stride(width, format.bits_per_pixel, format.scanline_pad);
    let total: usize = stride * height as usize;
    let mut out: Vec<u8> = vec![0u8; total];
    assert(out@ =~= format.painted(*image, 0));
    let bytes: usize = image.pixels.len();
    let mut y: u16 = 0;
    while y < height
        invariant
            format.valid(),
            image.valid(),
            image.width == width,
            image.height == height,
            bytes == image.pixels@.len(),
            stride == format.stride(width as nat),
            total == stride * height,
            format.end(width as nat, height as nat) <= total,
            y <= height,
            out@.len() == total,
            out@ == format.painted(*image, (y * width) as nat),
        decreases height - y,
    {
        let mut x: u16 = 0;
        while x < width
            invariant
                format.valid(),
                image.valid(),
                image.width == width,
                image.height == height,
                bytes == image.pixels@.len(),
                stride == format.stride(width as nat),
                format.end(width as nat, height as nat) <= total,
                x <= width,
                y < height,
                out@.len() == total,
                out@ == format.painted(*image, (y * width + x) as nat),
            decreases width - x,
        {
            let ghost index = y * width + x;
            proof {
                lemma_offset(format, width as nat, height as nat, x as int, y as int);
            }
            let first: usize = 4 * (y as usize * width as usize + x as usize);
            let pixel: u32 = encode_channel(image.pixels[first], format.red_mask) | encode_channel(
                image.pixels[first + 1],
                format.green_mask,
            ) | encode_channel(image.pixels[first + 2], format.blue_mask);
            let offset: usize = y as usize * stride + x as usize * format.bytes_per_pixel;
            proof {
                lemma_bytes_length(pixel as nat, format.bytes_per_pixel as nat);
            }
            write_pixel(pixel, &mut out, offset, format.bytes_per_pixel, format.lsb_first);
            assert(out@ == format.painted(*image, (index + 1) as nat));
            x += 1;
        }
        assert((y + 1) * width == y * width + width) by (nonlinear_arith);
        y += 1;
    }
    assert(height * width == width * height) by (nonlinear_arith);
    Ok(out)
}

/// Whether the conversion of the data reads no byte past its end.
pub fn can_decode(
    setup: &DisplayFormats,
    visual: u32,
    depth: u8,
    width: u16,
    height: u16,
    data: &[u8],
) -> (result: bool)
    ensures
        result == decodable(*setup, visual, depth, width, height, data@),
{
    match pixel_format(setup, visual, depth) {
        Ok(format) => {
            let stride: u64 = stride(width, format.bits_per_pixel, format.scanline_pad) as u64;
            assert(0 <= stride * height <= 0x20_0000 * 0xffff) by (nonlinear_arith)
                requires
                    0 <= stride <= 0x20_0000,
                    0 <= height <= 0xffff,
            ;
            let size: u64 = data.len() as u64;
            stride * height as u64 > size || end_of(&format, width, height, stride) <= size
        },
        Err(_) => true,
    }
}

/// Whether the data of an image can be counted, and its last pixel ends inside it.
pub fn can_encode(setup: &DisplayFormats, visual: u32, depth: u8, image: &RgbaImage) -> (result:
    bool)
    ensures
        result == encodable(*setup, visual, depth, *image),
{
    match pixel_format(setup, visual, depth) {
        Ok(format) => {
            if image.width > 0xffff || image.height > 0xffff {
                return true;
            }
            let width: u16 = image.width as u16;
            let height: u16 = image.height as u16;
            let stride: u64 = stride(width, format.bits_per_pixel, format.scanline_pad) as u64;
            assert(0 <= stride * height <= 0x20_0000 * 0xffff) by (nonlinear_arith)
                requires
                    0 <= stride <= 0x20_0000,
                    0 <= height <= 0xffff,
            ;
            let size: u64 = stride * height as u64;
            size <= usize::MAX as u64 && end_of(&format, width, height, stride) <= size
        },
        Err(_) => true,
    }
}

fn end_of(format: &PixelFormat, width: u16, height: u16, stride: u64) -> (end: u64)
    requires
        format.valid(),
        stride == format.stride(width as nat),
        stride <= 0x20_0000,
    ensures
        end == format.end(width as nat, height as nat),
{
    if width == 0 || height == 0 {
        0
    } else {
        assert((height - 1) * stride <= 0xffff * 0x20_0000 && width * format.bytes_per_pixel
            <= 0xffff * 4) by (nonlinear_arith)
            requires
                1 <= height <= 0xffff,
                1 <= width <= 0xffff,
                0 <= stride <= 0x20_0000,
                1 <= format.bytes_per_pixel <= 4,
        ;
        (height as u64 - 1) * stride + width as u64 * format.bytes_per_pixel as u64
    }
}

impl PixelFormat {
    /// A pixel fills whole bytes.
    pub open spec fn whole_bytes(self) -> bool {
        self.valid() && self.bits_per_pixel == 8 * self.bytes_per_pixel
    }

    /// Each channel has at least 255 steps in bits of its own that stand side by side, and all
    /// of them fit the bytes of a pixel.
    pub open spec fn exact_channels(self) -> bool {
        &&& exact_mask(self.red_mask)
        &&& exact_mask(self.green_mask)
        &&& exact_mask(self.blue_mask)
        &&& self.red_mask & self.green_mask == 0
        &&& self.red_mask & self.blue_mask == 0
        &&& self.green_mask & self.blue_mask == 0
        &&& (self.red_mask | self.green_mask | self.blue_mask) < byte_bound(
            self.bytes_per_pixel as nat,
        )
    }
}

/// The bits of the mask stand side by side and hold at least 255.
pub open spec fn exact_mask(mask: u32) -> bool {
    let max = channel_max(mask) as u64;
    mask != 0 && max >= 255 && max & ((max + 1) as u64) == 0
}

/// A channel of at least 255 steps is read back as it was written.
proof fn lemma_steps_read_back(channel: u8, max: u32)
    requires
        max >= 255,
    ensures
        (((channel * max + 127) / 255) * 255 + max / 2) / (max as int) == channel,
{
    let c = channel as int;
    let m = max as int;
    let v = (c * m + 127) / 255;
    let half = m / 2;
    assert(c * m - 127 <= v * 255 <= c * m + 127);
    assert((v * 255 + half) / m == c) by (nonlinear_arith)
        requires
            c * m - 127 <= v * 255 <= c * m + 127,
            half == m / 2,
            m >= 255,
    ;
}

/// The bits of a channel, alone or among those of other masks, give the channel back.
proof fn lemma_channel_reads_back(channel: u8, mask: u32, others: u32)
    requires
        exact_mask(mask),
        others & mask == 0,
    ensures
        extracted(encoded(channel, mask) | others, mask) == channel,
{
    let shift = channel_shift(mask);
    let max = channel_max(mask);
    let value = ((channel * max + 127) / 255) as u32;
    lemma_channel(mask);
    lemma_scaled_bound(channel, max);
    axiom_u32_trailing_zeros(mask);
    let bits = encoded(channel, mask);
    assert(((((value << shift) & mask) | others) & mask) >> shift == value) by (bit_vector)
        requires
            shift < 32,
            max == mask >> shift,
            value <= max,
            (max as u64) & ((max as u64 + 1) as u64) == 0,
            others & mask == 0,
    ;
    lemma_steps_read_back(channel, max);
}

proof fn lemma_row_holds_pixels(format: PixelFormat, width: nat)
    requires
        format.whole_bytes(),
    ensures
        width * format.bytes_per_pixel <= format.stride(width),
{
    let bits = width * format.bits_per_pixel;
    let pad = if format.scanline_pad > 8 {
        format.scanline_pad as int
    } else {
        8
    };
    let up = crate::layout::quotient_up(bits as int, pad);
    assert(bits <= up * pad) by (nonlinear_arith)
        requires
            up == bits as int / pad + if bits as int % pad > 0 {
                1int
            } else {
                0int
            },
            pad >= 8,
            bits >= 0,
    ;
    assert(bits == 8 * (width * format.bytes_per_pixel)) by (nonlinear_arith)
        requires
            bits == width * format.bits_per_pixel,
            format.bits_per_pixel == 8 * format.bytes_per_pixel,
    ;
}

/// Where pixels fill whole bytes, each one ends before the next one starts, and the last one
/// ends inside the data.
proof fn lemma_pixels_apart(format: PixelFormat, width: nat, height: nat, first: int, second: int)
    requires
        format.whole_bytes(),
        0 <= first <= second < width * height,
    ensures
        0 <= format.offset(width, first),
        first < second ==> format.offset(width, first) + format.bytes_per_pixel <= format.offset(
            width,
            second,
        ),
        format.offset(width, second) + format.bytes_per_pixel <= format.stride(width) * height,
{
    let w = width as int;
    let stride = format.stride(width) as int;
    let bytes = format.bytes_per_pixel as int;
    lemma_row_holds_pixels(format, width);
    assert(width > 0 && height > 0) by (nonlinear_arith)
        requires
            0 <= second < width * height,
    ;
    let (y1, x1) = (first / w, first % w);
    let (y2, x2) = (second / w, second % w);
    lemma_fundamental_div_mod(first, w);
    lemma_fundamental_div_mod(second, w);
    assert(0 <= x1 < w && 0 <= x2 < w && 0 <= y1) by (nonlinear_arith)
        requires
            w > 0,
            first >= 0,
            x1 == first % w,
            x2 == second % w,
            y1 == first / w,
    ;
    assert(y1 <= y2 && y2 < height) by (nonlinear_arith)
        requires
            first == w * y1 + x1,
            second == w * y2 + x2,
            first <= second,
            second < w * height,
            0 <= x1 < w,
            0 <= x2 < w,
            w > 0,
    ;
    assert(0 <= y1 * stride && 0 <= x1 * bytes && x1 * bytes + bytes <= w * bytes && x2 * bytes
        + bytes <= w * bytes && y2 * stride + stride <= stride * height && 0 <= x2 * bytes)
        by (nonlinear_arith)
        requires
            0 <= y1,
            0 <= y2 <= height - 1,
            0 <= x1 <= w - 1,
            0 <= x2 <= w - 1,
            0 <= stride,
            0 <= bytes,
    ;
    if first < second {
        if y1 == y2 {
            assert(x1 * bytes + bytes <= x2 * bytes) by (nonlinear_arith)
                requires
                    x1 + 1 <= x2,
                    bytes >= 0,
            ;
        } else {
            assert(y1 * stride + stride <= y2 * stride) by (nonlinear_arith)
                requires
                    y1 + 1 <= y2,
                    stride >= 0,
            ;
        }
    }
}

/// Where pixels fill whole bytes, the data keeps the bytes of every pixel that was written.
proof fn lemma_painted_keeps(format: PixelFormat, image: RgbaImage, count: nat)
    requires
        format.whole_bytes(),
        count <= image.width * image.height,
    ensures
        format.painted(image, count).len() == format.stride(image.width as nat) * image.height,
        forall|i: int|
            0 <= i < count ==> {
                let start = #[trigger] format.offset(image.width as nat, i);
                format.painted(image, count).subrange(start, start + format.bytes_per_pixel)
                    == pixel_bytes(
                    format.number(image, i) as nat,
                    format.bytes_per_pixel as nat,
                    format.lsb_first,
                )
            },
    decreases count,
{
    if count > 0 {
        let last = (count - 1) as nat;
        let width = image.width as nat;
        let height = image.height as nat;
        lemma_painted_keeps(format, image, last);
        lemma_pixels_apart(format, width, height, last as int, last as int);
        let written = pixel_bytes(
            format.number(image, last as int) as nat,
            format.bytes_per_pixel as nat,
            format.lsb_first,
        );
        lemma_bytes_length(
            format.number(image, last as int) as nat,
            format.bytes_per_pixel as nat,
        );
        let at = format.offset(width, last as int);
        let before = format.painted(image, last);
        let after = format.painted(image, count);
        assert(after == overwritten(before, at, written));
        assert forall|i: int| 0 <= i < count implies {
            let start = #[trigger] format.offset(width, i);
            after.subrange(start, start + format.bytes_per_pixel) == pixel_bytes(
                format.number(image, i) as nat,
                format.bytes_per_pixel as nat,
                format.lsb_first,
            )
        } by {
            let start = format.offset(width, i);
            if i == last {
                assert(after.subrange(start, start + format.bytes_per_pixel) =~= written);
            } else {
                lemma_pixels_apart(format, width, height, i, last as int);
                assert(after.subrange(start, start + format.bytes_per_pixel) =~= before.subrange(
                    start,
                    start + format.bytes_per_pixel,
                ));
            }
        }
    }
}

/// An image that is converted to the server's layout and back keeps its red, green and blue and
/// becomes opaque, where pixels fill whole bytes and channels have at least 255 steps.
pub proof fn law_image_reads_back(format: PixelFormat, image: RgbaImage, back: RgbaImage)
    requires
        format.whole_bytes(),
        format.exact_channels(),
        image.valid(),
        image.width <= 0xffff,
        image.height <= 0xffff,
        format.decodes_to(
            format.painted(image, (image.width * image.height) as nat),
            image.width as u16,
            image.height as u16,
            back,
        ),
    ensures
        back.width == image.width,
        back.height == image.height,
        forall|i: int, c: int|
            0 <= i < image.width * image.height && 0 <= c < 3 ==> #[trigger] back.channel(i, c)
                == image.channel(i, c),
        forall|i: int| 0 <= i < image.width * image.height ==> #[trigger] back.channel(i, 3) == 255,
{
    let total = (image.width * image.height) as nat;
    let data = format.painted(image, total);
    lemma_painted_keeps(format, image, total);
    assert forall|i: int, c: int|
        0 <= i < image.width * image.height && 0 <= c < 3 implies #[trigger] back.channel(i, c)
        == image.channel(i, c) by {
        let start = format.offset(image.width as nat, i);
        let number = format.number(image, i);
        let red = encoded(image.channel(i, 0), format.red_mask);
        let green = encoded(image.channel(i, 1), format.green_mask);
        let blue = encoded(image.channel(i, 2), format.blue_mask);
        lemma_channels_stay_in_masks(format, image, i);
        law_pixel_bytes_read_back(number as nat, format.bytes_per_pixel as nat, format.lsb_first);
        assert(format.pixel(data, image.width as nat, i) == number);
        assert(number == red | (green | blue) && number == green | (red | blue) && number == blue | (
        red | green)) by (bit_vector)
            requires
                number == red | green | blue,
        ;
        lemma_channel_reads_back(image.channel(i, 0), format.red_mask, green | blue);
        lemma_channel_reads_back(image.channel(i, 1), format.green_mask, red | blue);
        lemma_channel_reads_back(image.channel(i, 2), format.blue_mask, red | green);
        assert(back.channel(i, 0) == extracted(number, format.red_mask));
    }
    assert forall|i: int| 0 <= i < image.width * image.height implies #[trigger] back.channel(i, 3)
        == 255 by {
        assert(back.channel(i, 0) == back.channel(i, 0));
    }
}

proof fn lemma_channels_stay_in_masks(format: PixelFormat, image: RgbaImage, index: int)
    requires
        format.exact_channels(),
    ensures
        ({
            let red = encoded(image.channel(index, 0), format.red_mask);
            let green = encoded(image.channel(index, 1), format.green_mask);
            let blue = encoded(image.channel(index, 2), format.blue_mask);
            &&& (green | blue) & format.red_mask == 0
            &&& (red | blue) & format.green_mask == 0
            &&& (red | green) & format.blue_mask == 0
            &&& format.number(image, index) < byte_bound(format.bytes_per_pixel as nat)
        }),
{
    let (r, g, b) = (format.red_mask, format.green_mask, format.blue_mask);
    let red = encoded(image.channel(index, 0), r);
    let green = encoded(image.channel(index, 1), g);
    let blue = encoded(image.channel(index, 2), b);
    let x = (((image.channel(index, 0) * channel_max(r) + 127) / 255) as u32) << channel_shift(r);
    let y = (((image.channel(index, 1) * channel_max(g) + 127) / 255) as u32) << channel_shift(g);
    let z = (((image.channel(index, 2) * channel_max(b) + 127) / 255) as u32) << channel_shift(b);
    assert((green | blue) & r == 0 && (red | blue) & g == 0 && (red | green) & b == 0 && (red | green
        | blue) <= (r | g | b)) by (bit_vector)
        requires
            red == x & r,
            green == y & g,
            blue == z & b,
            r & g == 0,
            r & b == 0,
            g & b == 0,
    ;
}

/// In one order of bytes the first one of a pixel weighs least, in the other most.
pub proof fn law_bytes_have_their_weight(a: u8, b: u8, c: u8, d: u8)
    ensures
        pixel_value(seq![a], true) == a,
        pixel_value(seq![a], false) == a,
        pixel_value(seq![a, b], true) == a + 0x100 * b,
        pixel_value(seq![a, b], false) == 0x100 * a + b,
        pixel_value(seq![a, b, c], true) == a + 0x100 * b + 0x1_0000 * c,
        pixel_value(seq![a, b, c], false) == 0x1_0000 * a + 0x100 * b + c,
        pixel_value(seq![a, b, c, d], true) == a + 0x100 * b + 0x1_0000 * c + 0x100_0000 * d,
        pixel_value(seq![a, b, c, d], false) == 0x100_0000 * a + 0x1_0000 * b + 0x100 * c + d,
{
    let none: Seq<u8> = seq![];
    assert(seq![a].drop_first() =~= none && seq![a].drop_last() =~= none);
    assert(little_endian(none) == 0 && big_endian(none) == 0);
    lemma_two_bytes(a, b);
    lemma_two_bytes(b, c);
    lemma_two_bytes(c, d);
    assert(seq![a, b, c].drop_first() =~= seq![b, c]);
    assert(seq![a, b, c].drop_last() =~= seq![a, b]);
    assert(seq![b, c, d].drop_first() =~= seq![c, d]);
    assert(little_endian(seq![b, c, d]) == b + 0x100 * little_endian(seq![c, d]));
    assert(big_endian(seq![a, b, c]) == 0x100 * big_endian(seq![a, b]) + c);
    assert(seq![a, b, c, d].drop_first() =~= seq![b, c, d]);
    assert(seq![a, b, c, d].drop_last() =~= seq![a, b, c]);
    assert(little_endian(seq![a, b, c, d]) == a + 0x100 * little_endian(seq![b, c, d]));
    assert(big_endian(seq![a, b, c, d]) == 0x100 * big_endian(seq![a, b, c]) + d);
}

proof fn lemma_two_bytes(a: u8, b: u8)
    ensures
        little_endian(seq![a, b]) == a + 0x100 * b,
        big_endian(seq![a, b]) == 0x100 * a + b,
{
    let none: Seq<u8> = seq![];
    assert(seq![a].drop_last() =~= none && seq![b].drop_first() =~= none);
    assert(little_endian(none) == 0 && big_endian(none) == 0);
    assert(little_endian(seq![b]) == b && big_endian(seq![a]) == a);
    assert(seq![a, b].drop_first() =~= seq![b]);
    assert(seq![a, b].drop_last() =~= seq![a]);
}

/// A row holds the bits of its pixels and is filled up to a whole number of pads, with less than
/// one of them to spare; a pad is at least a byte.
pub proof fn law_rows_are_filled_up(width: u16, bits_per_pixel: u8, scanline_pad: u8)
    requires
        scanline_pad % 8 == 0,
    ensures
        ({
            let bits: int = 8 * row_bytes(
                width as nat,
                bits_per_pixel as nat,
                scanline_pad as nat,
            ) as int;
            let pad: int = if scanline_pad == 0 {
                8
            } else {
                scanline_pad as int
            };
            &&& bits % pad == 0
            &&& width * bits_per_pixel <= bits < width * bits_per_pixel + pad
        }),
{
    let pad: int = if scanline_pad == 0 {
        8
    } else {
        scanline_pad as int
    };
    let need = width * bits_per_pixel;
    assert(need >= 0) by (nonlinear_arith)
        requires
            need == width * bits_per_pixel,
            width >= 0,
            bits_per_pixel >= 0,
    ;
    let count = crate::layout::quotient_up(need, pad);
    lemma_fundamental_div_mod(need, pad);
    assert(0 <= need % pad < pad);
    assert(pad * (need / pad) == (need / pad) * pad) by (nonlinear_arith);
    assert((need / pad + 1) * pad == (need / pad) * pad + pad) by (nonlinear_arith);
    let eighth = pad / 8;
    assert(pad == 8 * eighth);
    assert(count * pad == 8 * (count * eighth)) by (nonlinear_arith)
        requires
            pad == 8 * eighth,
    ;
    assert((count * pad) % pad == 0) by (nonlinear_arith)
        requires
            pad > 0,
    ;
    assert(count >= 0) by (nonlinear_arith)
        requires
            count * pad >= 0,
            pad > 0,
    ;
}

/// Below the lowest bit of a mask there is none.
proof fn lemma_mask_ends(mask: u32)
    requires
        mask != 0,
    ensures
        (mask >> channel_shift(mask)) << channel_shift(mask) == mask,
{
    axiom_u32_trailing_zeros(mask);
    let shift = channel_shift(mask);
    let rest = (32 - shift) as u32;
    assert(mask << rest == 0);
    assert((mask >> shift) << shift == mask) by (bit_vector)
        requires
            shift < 32,
            rest == 32 - shift,
            mask << rest == 0,
    ;
}

/// A channel is scaled to 255 and rounded: no number of 255 steps is nearer to the share that
/// the channel's bits have of what they can hold.
pub proof fn law_channels_are_scaled(pixel: u32, mask: u32)
    ensures
        mask == 0 ==> extracted(pixel, mask) == 0,
        0 <= extracted(pixel, mask) <= 255,
        ({
            let error = extracted(pixel, mask) * mask - 255 * (pixel & mask);
            -mask <= 2 * error <= mask
        }),
{
    lemma_extracted_bound(pixel, mask);
    let part = pixel & mask;
    if mask == 0 {
        assert(part == 0) by (bit_vector)
            requires
                part == pixel & mask,
                mask == 0,
        ;
    } else {
        lemma_channel(mask);
        lemma_mask_ends(mask);
        let shift = channel_shift(mask);
        let max = channel_max(mask);
        let value = part >> shift;
        let unit = 1u32 << shift;
        assert(max * unit == mask && value * unit == part) by (bit_vector)
            requires
                shift < 32,
                part == pixel & mask,
                max == mask >> shift,
                value == part >> shift,
                unit == 1u32 << shift,
                (mask >> shift) << shift == mask,
        ;
        let scaled = extracted(pixel, mask);
        let sum = value * 255 + max / 2;
        lemma_fundamental_div_mod(sum as int, max as int);
        assert(0 <= sum % (max as int) < max) by (nonlinear_arith)
            requires
                max > 0,
        ;
        assert(max * scaled == scaled * max) by (nonlinear_arith);
        let error = scaled * max - 255 * value;
        assert(-max <= 2 * error <= max);
        assert(scaled * mask - 255 * part == error * unit) by (nonlinear_arith)
            requires
                max * unit == mask,
                value * unit == part,
                error == scaled * max - 255 * value,
        ;
        assert(-mask <= 2 * (error * unit) <= mask) by (nonlinear_arith)
            requires
                -max <= 2 * error <= max,
                max * unit == mask,
                unit >= 0,
        ;
    }
}

/// A channel of at most 255 steps that is read and written again has the bits that it had, and
/// touches no others.
pub proof fn law_small_channels_are_written_back(pixel: u32, mask: u32)
    requires
        mask != 0,
        channel_max(mask) <= 255,
    ensures
        encoded(extracted(pixel, mask) as u8, mask) == pixel & mask,
{
    lemma_extracted_bound(pixel, mask);
    lemma_channel(mask);
    lemma_mask_ends(mask);
    let part = pixel & mask;
    let shift = channel_shift(mask);
    let max = channel_max(mask);
    let value = part >> shift;
    let scaled = extracted(pixel, mask);
    let sum = value * 255 + max / 2;
    lemma_fundamental_div_mod(sum as int, max as int);
    assert(0 <= sum % (max as int) < max) by (nonlinear_arith)
        requires
            max > 0,
    ;
    assert(max * scaled == scaled * max) by (nonlinear_arith);
    assert((scaled * max + 127) / 255 == value);
    assert((value << shift) & mask == part) by (bit_vector)
        requires
            shift < 32,
            part == pixel & mask,
            value == part >> shift,
            (mask >> shift) << shift == mask,
    ;
}

/// What is written for a channel stays in the bits of its mask; nothing is written for none of
/// it, and all the bits for all of it.
pub proof fn law_channels_are_written_in_their_mask(channel: u8, mask: u32)
    ensures
        encoded(channel, mask) & mask == encoded(channel, mask),
        encoded(0, mask) == 0,
        encoded(255, mask) == mask,
{
    if mask != 0 {
        lemma_channel(mask);
        lemma_mask_ends(mask);
        let shift = channel_shift(mask);
        let max = channel_max(mask);
        let bits = ((channel * max + 127) / 255) as u32;
        assert(((bits << shift) & mask) & mask == (bits << shift) & mask) by (bit_vector);
        assert((0 * max + 127) / 255 == 0);
        assert((255 * max + 127) / 255 == max);
        assert((0u32 << shift) & mask == 0) by (bit_vector);
        assert((max << shift) & mask == mask) by (bit_vector)
            requires
                max == mask >> shift,
                (mask >> shift) << shift == mask,
        ;
    } else {
        assert(0u32 & 0u32 == 0) by (bit_vector);
    }
}

/// The layout of an image is that of the first format of its depth and of a visual of that
/// number, on any screen and at any depth; a pixel takes as many bytes as its bits fill. Without
/// such a format, or such a visual, or with a pixel of no byte or of more than four, there is
/// none, and the error says so in that order.
pub proof fn law_layouts_come_from_the_server(
    setup: DisplayFormats,
    visual: u32,
    depth: u8,
) -> (found: (int, int, int, int))
    ensures
        match format_for(setup, visual, depth) {
            Ok(format) => {
                let (f, s, d, v) = found;
                let formats = setup.pixmap_formats@;
                let screens = setup.screens@;
                &&& 0 <= f < formats.len() && formats[f].depth == depth
                &&& forall|i: int| 0 <= i < f ==> (#[trigger] formats[i]).depth != depth
                &&& 0 <= s < screens.len() && 0 <= d < screens[s]@.len() && 0 <= v
                    < screens[s]@[d]@.len()
                &&& screens[s]@[d]@[v].visual_id == visual
                &&& format.red_mask == screens[s]@[d]@[v].red_mask
                &&& format.green_mask == screens[s]@[d]@[v].green_mask
                &&& format.blue_mask == screens[s]@[d]@[v].blue_mask
                &&& format.bits_per_pixel == formats[f].bits_per_pixel
                &&& format.scanline_pad == formats[f].scanline_pad
                &&& format.lsb_first == setup.lsb_first
                &&& 1 <= format.bytes_per_pixel <= 4
                &&& 8 * (format.bytes_per_pixel - 1) < format.bits_per_pixel <= 8
                    * format.bytes_per_pixel
            },
            Err(PixelError::NoPixmapFormat { depth: told }) => {
                &&& told == depth
                &&& forall|i: int|
                    0 <= i < setup.pixmap_formats@.len() ==> (
                    #[trigger] setup.pixmap_formats@[i]).depth != depth
            },
            Err(PixelError::NoVisual { visual: told, depth: at }) => {
                &&& told == visual && at == depth
                &&& forall|s: int, d: int, v: int|
                    0 <= s < setup.screens@.len() && 0 <= d < setup.screens@[s]@.len() && 0 <= v
                        < setup.screens@[s]@[d]@.len() ==> (
                    #[trigger] setup.screens@[s]@[d]@[v]).visual_id != visual
            },
            Err(PixelError::UnsupportedBits { bits_per_pixel, depth: at }) => {
                let f = found.0;
                &&& at == depth
                &&& 0 <= f < setup.pixmap_formats@.len()
                &&& setup.pixmap_formats@[f].depth == depth
                &&& setup.pixmap_formats@[f].bits_per_pixel == bits_per_pixel
                &&& bits_per_pixel == 0 || bits_per_pixel > 32
            },
            Err(_) => false,
        },
{
    let f = lemma_first_format(setup.pixmap_formats@, depth);
    let (s, d, v) = lemma_visual_on_screens(setup.screens@, visual);
    (f, s, d, v)
}

proof fn lemma_first_format(formats: Seq<PixmapFormat>, depth: u8) -> (f: int)
    ensures
        match format_of_depth(formats, depth) {
            Some(format) => {
                &&& 0 <= f < formats.len()
                &&& formats[f] == format
                &&& format.depth == depth
                &&& forall|i: int| 0 <= i < f ==> (#[trigger] formats[i]).depth != depth
            },
            None => forall|i: int|
                0 <= i < formats.len() ==> (#[trigger] formats[i]).depth != depth,
        },
    decreases formats.len(),
{
    if formats.len() == 0 || formats[0].depth == depth {
        0
    } else {
        let rest = formats.drop_first();
        let f = lemma_first_format(rest, depth);
        assert forall|i: int| 0 < i < formats.len() implies #[trigger] formats[i] == rest[i - 1] by {}
        f + 1
    }
}

proof fn lemma_visual_in_list(visuals: Seq<VisualType>, visual: u32) -> (v: int)
    ensures
        match visual_of_id(visuals, visual) {
            Some(found) => 0 <= v < visuals.len() && visuals[v] == found && found.visual_id
                == visual,
            None => forall|i: int|
                0 <= i < visuals.len() ==> (#[trigger] visuals[i]).visual_id != visual,
        },
    decreases visuals.len(),
{
    if visuals.len() == 0 || visuals[0].visual_id == visual {
        0
    } else {
        let rest = visuals.drop_first();
        let v = lemma_visual_in_list(rest, visual);
        assert forall|i: int| 0 < i < visuals.len() implies #[trigger] visuals[i] == rest[i - 1] by {}
        v + 1
    }
}

proof fn lemma_visual_at_depths(depths: Seq<Vec<VisualType>>, visual: u32) -> (at: (int, int))
    ensures
        match visual_of_id(visuals_of_depths(depths), visual) {
            Some(found) => {
                let (d, v) = at;
                &&& 0 <= d < depths.len() && 0 <= v < depths[d]@.len()
                &&& depths[d]@[v] == found
                &&& found.visual_id == visual
            },
            None => forall|d: int, v: int|
                0 <= d < depths.len() && 0 <= v < depths[d]@.len() ==> (
                #[trigger] depths[d]@[v]).visual_id != visual,
        },
    decreases depths.len(),
{
    if depths.len() == 0 {
        (0, 0)
    } else {
        let rest = depths.drop_first();
        let v = lemma_visual_in_list(depths[0]@, visual);
        let (d, w) = lemma_visual_at_depths(rest, visual);
        lemma_visual_of_concat(depths[0]@, visuals_of_depths(rest), visual);
        assert forall|i: int| 0 < i < depths.len() implies #[trigger] depths[i] == rest[i - 1] by {}
        if visual_of_id(depths[0]@, visual) is Some {
            (0, v)
        } else {
            (d + 1, w)
        }
    }
}

proof fn lemma_visual_on_screens(
    screens: Seq<Vec<Vec<VisualType>>>,
    visual: u32,
) -> (at: (int, int, int))
    ensures
        match visual_of_id(visuals_of_screens(screens), visual) {
            Some(found) => {
                let (s, d, v) = at;
                &&& 0 <= s < screens.len() && 0 <= d < screens[s]@.len() && 0 <= v
                    < screens[s]@[d]@.len()
                &&& screens[s]@[d]@[v] == found
                &&& found.visual_id == visual
            },
            None => forall|s: int, d: int, v: int|
                0 <= s < screens.len() && 0 <= d < screens[s]@.len() && 0 <= v
                    < screens[s]@[d]@.len() ==> (#[trigger] screens[s]@[d]@[v]).visual_id
                    != visual,
        },
    decreases screens.len(),
{
    if screens.len() == 0 {
        (0, 0, 0)
    } else {
        let rest = screens.drop_first();
        let (d, v) = lemma_visual_at_depths(screens[0]@, visual);
        let (s, e, w) = lemma_visual_on_screens(rest, visual);
        lemma_visual_of_concat(visuals_of_depths(screens[0]@), visuals_of_screens(rest), visual);
        assert forall|i: int| 0 < i < screens.len() implies #[trigger] screens[i] == rest[i - 1] by {}
        if visual_of_id(visuals_of_depths(screens[0]@), visual) is Some {
            (0, d, v)
        } else {
            (s + 1, e, w)
        }
    }
}

/// The pixel at a place of the image is the one at that place of the data: row by row, each row
/// with its stride, red, green and blue by their masks, and opaque.
pub proof fn law_pixels_keep_their_place(
    format: PixelFormat,
    data: Seq<u8>,
    width: u16,
    height: u16,
    image: RgbaImage,
    x: int,
    y: int,
)
    requires
        format.decodes_to(data, width, height, image),
        0 <= x < width,
        0 <= y < height,
    ensures
        ({
            let row = row_bytes(
                width as nat,
                format.bits_per_pixel as nat,
                format.scanline_pad as nat,
            );
            let start = y * row + x * format.bytes_per_pixel;
            let bytes = data.subrange(start, start + format.bytes_per_pixel);
            let number = pixel_value(bytes, format.lsb_first) as u32;
            let at = 4 * (y * width + x);
            &&& image.width == width && image.height == height
            &&& image.pixels@.len() == 4 * (width * height)
            &&& image.pixels@[at] == extracted(number, format.red_mask)
            &&& image.pixels@[at + 1] == extracted(number, format.green_mask)
            &&& image.pixels@[at + 2] == extracted(number, format.blue_mask)
            &&& image.pixels@[at + 3] == 255
        }),
{
    lemma_offset(format, width as nat, height as nat, x, y);
    assert(0 <= y * width + x < width * height);
    assert(image.channel(y * width + x, 0) == image.pixels@[4 * (y * width + x)]);
}

/// The other way round: the pixel at a place of the image stands at that place of the data, red,
/// green and blue in the bits of their masks, and every row is filled up with zeros.
pub proof fn law_pixels_are_written_in_place(
    format: PixelFormat,
    image: RgbaImage,
    x: int,
    y: int,
    filling: int,
)
    requires
        format.whole_bytes(),
        image.width <= 0xffff,
        image.height <= 0xffff,
        0 <= x < image.width,
        0 <= y < image.height,
        image.width * format.bytes_per_pixel <= filling < format.stride(image.width as nat),
    ensures
        ({
            let data = format.painted(image, (image.width * image.height) as nat);
            let row = row_bytes(
                image.width as nat,
                format.bits_per_pixel as nat,
                format.scanline_pad as nat,
            );
            let start = y * row + x * format.bytes_per_pixel;
            let at = 4 * (y * image.width + x);
            let number = encoded(image.pixels@[at], format.red_mask) | encoded(
                image.pixels@[at + 1],
                format.green_mask,
            ) | encoded(image.pixels@[at + 2], format.blue_mask);
            &&& data.len() == row * image.height
            &&& data.subrange(start, start + format.bytes_per_pixel) == pixel_bytes(
                number as nat,
                format.bytes_per_pixel as nat,
                format.lsb_first,
            )
            &&& data[y * row + filling] == 0
        }),
{
    let total = (image.width * image.height) as nat;
    lemma_painted_keeps(format, image, total);
    lemma_offset(format, image.width as nat, image.height as nat, x, y);
    let i = y * image.width + x;
    assert(0 <= i < total);
    assert(format.offset(image.width as nat, i) == y * format.stride(image.width as nat) + x
        * format.bytes_per_pixel);
    lemma_filling_stays(format, image, total, y, filling);
}

proof fn lemma_filling_stays(
    format: PixelFormat,
    image: RgbaImage,
    count: nat,
    y: int,
    filling: int,
)
    requires
        format.whole_bytes(),
        count <= image.width * image.height,
        0 <= y < image.height,
        image.width * format.bytes_per_pixel <= filling < format.stride(image.width as nat),
    ensures
        format.painted(image, count)[y * format.stride(image.width as nat) + filling] == 0,
    decreases count,
{
    let width = image.width as nat;
    let height = image.height as nat;
    let stride = format.stride(width) as int;
    let bytes = format.bytes_per_pixel as int;
    let place = y * stride + filling;
    assert(0 <= y * stride && 0 <= width * bytes && place < stride * height) by (nonlinear_arith)
        requires
            0 <= y <= height - 1,
            0 <= stride,
            0 <= bytes,
            filling < stride,
            place == y * stride + filling,
    ;
    if count > 0 {
        let last = (count - 1) as nat;
        lemma_filling_stays(format, image, last, y, filling);
        lemma_painted_keeps(format, image, last);
        lemma_pixels_apart(format, width, height, last as int, last as int);
        let written = pixel_bytes(
            format.number(image, last as int) as nat,
            format.bytes_per_pixel as nat,
            format.lsb_first,
        );
        lemma_bytes_length(format.number(image, last as int) as nat, format.bytes_per_pixel as nat);
        let start = format.offset(width, last as int);
        let w = width as int;
        assert(w > 0) by (nonlinear_arith)
            requires
                last < w * height,
                last >= 0,
                height >= 0,
                w >= 0,
        ;
        let (row, column) = (last as int / w, last as int % w);
        lemma_fundamental_div_mod(last as int, w);
        assert(0 <= column < w) by (nonlinear_arith)
            requires
                column == last as int % w,
                w > 0,
        ;
        assert(column * bytes + bytes <= w * bytes && 0 <= column * bytes) by (nonlinear_arith)
            requires
                0 <= column <= w - 1,
                bytes >= 0,
        ;
        lemma_row_holds_pixels(format, width);
        assert(place < start || place >= start + bytes) by (nonlinear_arith)
            requires
                place == y * stride + filling,
                start == row * stride + column * bytes,
                0 <= column * bytes,
                column * bytes + bytes <= w * bytes,
                w * bytes <= filling,
                filling < stride,
        ;
        let before = format.painted(image, last);
        assert(overwritten(before, start, written)[place] == before[place]);
    }
}

/// Where pixels fill whole bytes, every image can be read and written: no pixel runs past the
/// data of its rows. Where there is no layout there is nothing to run past.
pub proof fn law_whole_pixels_can_be_converted(
    setup: DisplayFormats,
    visual: u32,
    depth: u8,
    width: u16,
    height: u16,
    data: Seq<u8>,
    image: RgbaImage,
)
    requires
        format_for(setup, visual, depth) matches Ok(format) ==> format.whole_bytes(),
    ensures
        decodable(setup, visual, depth, width, height, data),
        format_for(setup, visual, depth) matches Ok(format) ==> {
            let row = row_bytes(
                image.width as nat,
                format.bits_per_pixel as nat,
                format.scanline_pad as nat,
            );
            row * image.height <= usize::MAX ==> encodable(setup, visual, depth, image)
        },
        image.width > 0xffff || image.height > 0xffff ==> encodable(setup, visual, depth, image),
        format_for(setup, visual, depth) is Err ==> encodable(setup, visual, depth, image),
{
    if let Ok(format) = format_for(setup, visual, depth) {
        lemma_end_inside(format, width as nat, height as nat);
        lemma_end_inside(format, image.width as nat, image.height as nat);
    }
}

proof fn lemma_end_inside(format: PixelFormat, width: nat, height: nat)
    requires
        format.whole_bytes(),
    ensures
        format.end(width, height) <= format.stride(width) * height,
{
    lemma_row_holds_pixels(format, width);
    let stride = format.stride(width) as int;
    let bytes = width * format.bytes_per_pixel;
    assert(stride * height >= 0) by (nonlinear_arith)
        requires
            stride >= 0,
            height >= 0,
    ;
    if width > 0 && height > 0 {
        assert((height - 1) * stride + bytes <= stride * height) by (nonlinear_arith)
            requires
                bytes <= stride,
                height >= 1,
        ;
    }
}

/// What is wrong with pixels is told with the numbers that tell why.
pub proof fn law_pixel_errors_are_told_in_words(error: PixelError)
    ensures
        error.spec_message() == (match error {
            PixelError::NoPixmapFormat { depth } => {
                "no X11 pixmap format for depth "@ + text::decimal(depth as nat)
            },
            PixelError::NoVisual { visual, depth } => {
                "no X11 visual masks for visual 0x"@ + text::hex(visual as nat, 8) + " at depth "@
                    + text::decimal(depth as nat)
            },
            PixelError::UnsupportedBits { bits_per_pixel, depth } => {
                "unsupported X11 bits_per_pixel="@ + text::decimal(bits_per_pixel as nat)
                    + " for depth "@ + text::decimal(depth as nat)
            },
            PixelError::StrideOverflow => "XImage stride overflow"@,
            PixelError::TooShort { got, need } => {
                "XImage data is too short: got "@ + text::decimal(got as nat)
                    + " bytes, need at least "@ + text::decimal(need as nat)
            },
            PixelError::TooWide => "image too wide for X11 put_image"@,
            PixelError::TooTall => "image too tall for X11 put_image"@,
        }),
{
}

}
