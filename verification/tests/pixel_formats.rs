use tobyscope_x11::pixels::{
    can_decode, can_encode, encode_channel, extract_channel, find_visual, pixel_format,
    read_pixel, rgba_to_zpixmap, stride, write_pixel, ximage_to_rgba, DisplayFormats, PixelError,
    PixmapFormat, RgbaImage, VisualType,
};

fn display(lsb_first: bool) -> DisplayFormats {
    DisplayFormats {
        pixmap_formats: vec![
            PixmapFormat { depth: 1, bits_per_pixel: 1, scanline_pad: 32 },
            PixmapFormat { depth: 16, bits_per_pixel: 16, scanline_pad: 32 },
            PixmapFormat { depth: 24, bits_per_pixel: 32, scanline_pad: 32 },
            PixmapFormat { depth: 30, bits_per_pixel: 40, scanline_pad: 8 },
            PixmapFormat { depth: 31, bits_per_pixel: 0, scanline_pad: 8 },
        ],
        screens: vec![vec![
            vec![],
            vec![
                VisualType {
                    visual_id: 33,
                    red_mask: 0xff0000,
                    green_mask: 0xff00,
                    blue_mask: 0xff,
                },
                VisualType { visual_id: 34, red_mask: 0xf800, green_mask: 0x7e0, blue_mask: 0x1f },
            ],
        ]],
        lsb_first,
    }
}

#[test]
fn true_color_reads_back() {
    for lsb_first in [true, false] {
        let setup = display(lsb_first);
        let mut pixels = Vec::new();
        for index in 0..15u32 {
            pixels.extend([(index * 17) as u8, (index * 3) as u8, 255 - index as u8, 255]);
        }
        let image = RgbaImage { width: 5, height: 3, pixels };
        assert!(can_encode(&setup, 33, 24, &image));
        let data = rgba_to_zpixmap(&setup, 33, 24, &image).unwrap();
        assert_eq!(data.len(), 60);
        assert!(can_decode(&setup, 33, 24, 5, 3, &data));
        let back = ximage_to_rgba(&setup, 33, 24, 5, 3, &data).unwrap();
        assert_eq!((back.width, back.height), (5, 3));
        assert_eq!(back.pixels, image.pixels);
        let copy = back.clone();
        assert_eq!(copy.pixels, back.pixels);
    }
}

#[test]
fn bytes_follow_the_order_of_the_server() {
    let image = RgbaImage { width: 1, height: 1, pixels: vec![0x11, 0x22, 0x33, 0x44] };
    assert_eq!(rgba_to_zpixmap(&display(true), 33, 24, &image).unwrap(), vec![0x33, 0x22, 0x11, 0]);
    assert_eq!(
        rgba_to_zpixmap(&display(false), 33, 24, &image).unwrap(),
        vec![0, 0x11, 0x22, 0x33]
    );
}

#[test]
fn sixteen_bit_rows_are_padded() {
    let setup = display(true);
    let image = RgbaImage {
        width: 1,
        height: 2,
        pixels: vec![255, 255, 255, 255, 255, 0, 0, 255],
    };
    let data = rgba_to_zpixmap(&setup, 34, 16, &image).unwrap();
    assert_eq!(data, vec![0xff, 0xff, 0, 0, 0, 0xf8, 0, 0]);
    let back = ximage_to_rgba(&setup, 34, 16, 1, 2, &data).unwrap();
    assert_eq!(back.pixels, vec![255, 255, 255, 255, 255, 0, 0, 255]);
}

#[test]
fn faults_are_told_apart() {
    let setup = display(true);
    assert_eq!(
        pixel_format(&setup, 33, 8).err(),
        Some(PixelError::NoPixmapFormat { depth: 8 })
    );
    assert_eq!(
        pixel_format(&setup, 99, 24).err(),
        Some(PixelError::NoVisual { visual: 99, depth: 24 })
    );
    assert_eq!(
        pixel_format(&setup, 33, 30).err(),
        Some(PixelError::UnsupportedBits { bits_per_pixel: 40, depth: 30 })
    );
    assert_eq!(
        pixel_format(&setup, 33, 31).err(),
        Some(PixelError::UnsupportedBits { bits_per_pixel: 0, depth: 31 })
    );
    assert_eq!(
        ximage_to_rgba(&setup, 33, 24, 2, 2, &[0; 15]).err(),
        Some(PixelError::TooShort { got: 15, need: 16 })
    );
    let wide = RgbaImage { width: 65_536, height: 0, pixels: vec![] };
    assert!(can_encode(&setup, 33, 24, &wide));
    assert_eq!(rgba_to_zpixmap(&setup, 33, 24, &wide).err(), Some(PixelError::TooWide));
    let tall = RgbaImage { width: 0, height: 65_536, pixels: vec![] };
    assert_eq!(rgba_to_zpixmap(&setup, 33, 24, &tall).err(), Some(PixelError::TooTall));
}

#[test]
fn faults_have_words() {
    assert_eq!(
        PixelError::NoPixmapFormat { depth: 8 }.message(),
        "no X11 pixmap format for depth 8"
    );
    assert_eq!(
        PixelError::NoVisual { visual: 0x2a, depth: 24 }.message(),
        "no X11 visual masks for visual 0x0000002a at depth 24"
    );
    assert_eq!(
        PixelError::UnsupportedBits { bits_per_pixel: 40, depth: 30 }.message(),
        "unsupported X11 bits_per_pixel=40 for depth 30"
    );
    assert_eq!(PixelError::StrideOverflow.message(), "XImage stride overflow");
    assert_eq!(
        PixelError::TooShort { got: 15, need: 16 }.message(),
        "XImage data is too short: got 15 bytes, need at least 16"
    );
    assert_eq!(PixelError::TooWide.message(), "image too wide for X11 put_image");
    assert_eq!(PixelError::TooTall.message(), "image too tall for X11 put_image");
}

#[test]
fn one_bit_pixels_run_past_their_row() {
    let setup = display(true);
    assert!(!can_decode(&setup, 33, 1, 8, 1, &[0; 4]));
    assert!(can_decode(&setup, 33, 1, 8, 1, &[0; 8]));
}

#[test]
fn rows_are_padded_to_whole_units() {
    assert_eq!(stride(3, 24, 32), 12);
    assert_eq!(stride(1, 1, 32), 4);
    assert_eq!(stride(5, 8, 8), 5);
    assert_eq!(stride(5, 8, 0), 5);
    assert_eq!(stride(0, 32, 32), 0);
    assert_eq!(stride(65_535, 32, 32), 262_140);
}

#[test]
fn pixels_read_back() {
    for (count, lsb_first) in [(1usize, true), (2, false), (3, true), (3, false), (4, true)] {
        let pixel = 0x8421_7f3eu32 & (0xffff_ffffu32 >> (32 - 8 * count));
        let mut out = vec![9u8; 6];
        write_pixel(pixel, &mut out, 1, count, lsb_first);
        assert_eq!(read_pixel(&out[1..1 + count], count, lsb_first), pixel);
        assert_eq!((out[0], out[5]), (9, 9));
    }
    let mut out = vec![0u8; 2];
    write_pixel(0x8421_7f3e, &mut out, 0, 2, true);
    assert_eq!(out, vec![0x3e, 0x7f]);
    assert_eq!(read_pixel(&out, 2, true), 0x7f3e);
    write_pixel(0x8421_7f3e, &mut out, 0, 2, false);
    assert_eq!(out, vec![0x7f, 0x3e]);
    assert_eq!(read_pixel(&out, 2, false), 0x7f3e);
    assert_eq!(read_pixel(&[1, 2, 3], 3, true), 0x030201);
    assert_eq!(read_pixel(&[1, 2, 3], 3, false), 0x010203);
}

#[test]
fn channels_scale_to_a_byte_and_back() {
    assert_eq!(extract_channel(0x00ab_cdef, 0x0000_ff00), 0xcd);
    assert_eq!(extract_channel(0xffff, 0xf800), 255);
    assert_eq!(extract_channel(0x8000, 0xf800), 132);
    assert_eq!(extract_channel(0x8000, 0), 0);
    assert_eq!(encode_channel(255, 0xf800), 0xf800);
    assert_eq!(encode_channel(128, 0x7e0), 32 << 5);
    assert_eq!(encode_channel(128, 0), 0);
    for channel in 0..=255u8 {
        assert_eq!(extract_channel(encode_channel(channel, 0xff00), 0xff00), channel);
    }
}

#[test]
fn the_first_visual_of_a_number_is_found() {
    let setup = display(true);
    assert_eq!(find_visual(&setup, 34).unwrap().green_mask, 0x7e0);
    assert!(find_visual(&setup, 35).is_none());
}
