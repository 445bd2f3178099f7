//! Taking thumbnails: one window at a time, over the workspaces.

use std::collections::VecDeque;

use vstd::prelude::*;

use crate::i3;
use crate::pixels;
use crate::pixels::{DisplayFormats, PixelError, RgbaImage};
use crate::single;
use crate::single::Single;
use crate::text;
use crate::windows;
use crate::windows::{WindowGeometry, WindowInfo};
use crate::x11;
use crate::x11::{Extent, Fault, WindowAttributes};

verus! {

/// How long a window may take to become viewable, in milliseconds.
pub const VIEWABLE_TIMEOUT_MS: u64 = 1200;

/// How long to wait before looking again, in milliseconds.
pub const VIEWABLE_POLL_MS: u64 = 35;

/// How long a workspace takes to settle after a switch, in milliseconds.
pub const WORKSPACE_SETTLE_MS: u64 = 90;

/// The longest edge of a stored thumbnail.
pub const MAX_CACHE_EDGE: u32 = 960;

/// What `image::imageops::resize` with the triangle filter makes of the pixels of an image of
/// `width` by `height`, for a new image of `new_width` by `new_height`.
pub uninterp spec fn triangle_resized(
    width: u32,
    height: u32,
    pixels: Seq<u8>,
    new_width: u32,
    new_height: u32,
) -> Seq<u8>;

/// `image::imageops::resize` with `FilterType::Triangle`, on four bytes a pixel. The new image
/// has the size that was asked for; how its pixels are weighed is only named. The sizes are
/// those of X11 images, so that the weights are those of exact coordinates, and the buffers that
/// the call makes, of four bytes and of sixteen bytes a pixel, can be addressed.
#[verifier::external_body]
fn resize_triangle(image: &RgbaImage, width: u32, height: u32) -> (pixels: Vec<u8>)
    requires
        image.valid(),
        image.width <= 0xffff,
        image.height <= 0xffff,
        1 <= width <= 0xffff,
        1 <= height <= 0xffff,
        16 * (image.width * height) <= isize::MAX,
        4 * (width * height) <= isize::MAX,
    ensures
        pixels@ == triangle_resized(image.width, image.height, image.pixels@, width, height),
        pixels@.len() == 4 * (width * height),
{
    let source = image::RgbaImage::from_raw(image.width, image.height, image.pixels.clone());
    image::imageops::resize(
        &source.expect("the buffer holds every pixel"),
        width,
        height,
        image::imageops::FilterType::Triangle,
    ).into_raw()
}

/// The larger of the two edges.
pub open spec fn longest_edge(width: nat, height: nat) -> nat {
    if width >= height {
        width
    } else {
        height
    }
}

/// What an edge becomes when the longest edge of its image is brought down to `limit`, in single
/// precision; at least one pixel.
pub open spec fn scaled_edge(edge: nat, longest: nat, limit: nat) -> nat {
    let scale = single::quotient(single::of_int(limit), single::of_int(longest));
    let scaled = single::rounded(single::product(single::of_int(edge), scale));
    if scaled < 1 {
        1
    } else {
        scaled
    }
}

/// `small` is `image`, brought down so that its longest edge is `limit` if it was longer.
pub open spec fn brought_down(image: RgbaImage, limit: u32, small: RgbaImage) -> bool {
    let longest = longest_edge(image.width as nat, image.height as nat);
    if longest <= limit {
        small.width == image.width && small.height == image.height && small.pixels@
            == image.pixels@
    } else {
        &&& small.width == scaled_edge(image.width as nat, longest, limit as nat)
        &&& small.height == scaled_edge(image.height as nat, longest, limit as nat)
        &&& small.pixels@ == triangle_resized(
            image.width,
            image.height,
            image.pixels@,
            small.width,
            small.height,
        )
    }
}

proof fn lemma_scaled_edge_bound(edge: nat, longest: nat, limit: nat)
    requires
        edge <= longest <= 0xffff,
        0 < limit <= longest,
    ensures
        1 <= scaled_edge(edge, longest, limit),
        scaled_edge(edge, longest, limit) <= (if edge == 0 {
            1
        } else {
            edge
        }),
{
    if edge > 0 {
        single::law_scaling_down_shrinks(edge, limit, longest);
    } else {
        let scale = single::quotient(single::of_int(limit), single::of_int(longest));
        assert(0 * scale.significand == 0) by (nonlinear_arith);
        assert(single::product(single::of_int(0), scale) == single::zero());
        assert(single::rounded(single::zero()) == 0) by {
            vstd::arithmetic::power2::lemma2_to64();
        }
    }
}

/// No edge of an image that is brought down is longer than the limit, and none grows.
pub proof fn law_thumbnails_stay_within_the_limit(image: RgbaImage, limit: u32, small: RgbaImage)
    requires
        brought_down(image, limit, small),
        image.width <= 0xffff,
        image.height <= 0xffff,
        0 < limit,
    ensures
        small.width <= limit,
        small.height <= limit,
        image.width > 0 ==> small.width <= image.width,
        image.height > 0 ==> small.height <= image.height,
{
    let longest = longest_edge(image.width as nat, image.height as nat);
    if longest > limit {
        lemma_scaled_edge_bound(image.width as nat, longest, limit as nat);
        lemma_scaled_edge_bound(image.height as nat, longest, limit as nat);
        if image.width > 0 {
            single::law_scaling_down_meets_the_target(image.width as nat, limit as nat, longest);
        }
        if image.height > 0 {
            single::law_scaling_down_meets_the_target(image.height as nat, limit as nat, longest);
        }
    }
}

/// One edge of [`scale_for_cache`].
fn scale_edge(edge: u32, longest: u32, limit: u32) -> (scaled: u32)
    requires
        edge <= longest <= 0xffff,
        0 < limit < longest,
    ensures
        scaled == scaled_edge(edge as nat, longest as nat, limit as nat),
        1 <= scaled <= 0xffff,
        scaled <= edge || scaled == 1,
{
    proof {
        lemma_scaled_edge_bound(edge as nat, longest as nat, limit as nat);
        single::law_whole_numbers_are_exact(longest as nat);
    }
    let scale: Single = Single::from_int(limit as u64).divide(Single::from_int(longest as u64));
    let rounded: u128 = Single::from_int(edge as u64).multiply(scale).round();
    if rounded < 1 {
        1
    } else {
        rounded as u32
    }
}

/// Brings an image down to what the cache keeps.
pub fn scale_for_cache(image: &RgbaImage, limit: u32) -> (small: RgbaImage)
    requires
        image.valid(),
        image.width <= 0xffff,
        image.height <= 0xffff,
        0 < limit,
        16 * (image.width * image.height) <= isize::MAX,
    ensures
        brought_down(*image, limit, small),
        small.valid(),
        small.width <= 0xffff,
        small.height <= 0xffff,
{
    let longest: u32 = if image.width >= image.height {
        image.width
    } else {
        image.height
    };
    if longest <= limit {
        return image.clone();
    }
    let width: u32 = scale_edge(image.width, longest, limit);
    let height: u32 = scale_edge(image.height, longest, limit);
    assert(16 * (image.width * height) <= isize::MAX && 4 * (width * height) <= isize::MAX)
        by (nonlinear_arith)
        requires
            16 * (image.width * image.height) <= isize::MAX,
            width <= image.width || width == 1,
            height <= image.height || height == 1,
            0 <= image.width <= 0xffff,
            0 <= image.height <= 0xffff,
            1 <= width <= 0xffff,
            1 <= height <= 0xffff,
            isize::MAX >= 0x7fff_ffff,
    ;
    let pixels: Vec<u8> = resize_triangle(image, width, height);
    RgbaImage { width, height, pixels }
}

/// The visual that tells how the pixels of a capture are laid out: that of the image, or that of
/// the window where the image names none.
pub open spec fn image_visual(image: u32, window: u32) -> u32 {
    if image == 0 {
        window
    } else {
        image
    }
}

/// Whether a thumbnail can be made of the pixels that the server sent for a window: no pixel
/// runs past the data, and the buffers on the way can be addressed.
pub fn can_make_picture(
    setup: &DisplayFormats,
    geometry: WindowGeometry,
    visual: u32,
    depth: u8,
    data: &[u8],
) -> (result: bool)
    ensures
        result == (pixels::decodable(
            *setup,
            image_visual(visual, geometry.visual),
            depth,
            geometry.width,
            geometry.height,
            data@,
        ) && 16 * (geometry.width * geometry.height) <= isize::MAX),
{
    let visual: u32 = if visual == 0 {
        geometry.visual
    } else {
        visual
    };
    assert(0 <= geometry.width * geometry.height <= 0xffff * 0xffff) by (nonlinear_arith)
        requires
            0 <= geometry.width <= 0xffff,
            0 <= geometry.height <= 0xffff,
    ;
    let area: u64 = geometry.width as u64 * geometry.height as u64;
    16 * area <= isize::MAX as u64 && pixels::can_decode(
        setup,
        visual,
        depth,
        geometry.width,
        geometry.height,
        data,
    )
}

/// Makes a thumbnail of the pixels that the server sent for a window.
pub fn picture(
    setup: &DisplayFormats,
    geometry: WindowGeometry,
    visual: u32,
    depth: u8,
    data: &[u8],
    limit: u32,
) -> (image: Result<RgbaImage, PixelError>)
    requires
        pixels::decodable(
            *setup,
            image_visual(visual, geometry.visual),
            depth,
            geometry.width,
            geometry.height,
            data@,
        ),
        0 < limit,
        16 * (geometry.width * geometry.height) <= isize::MAX,
    ensures
        match pixels::format_for(*setup, image_visual(visual, geometry.visual), depth) {
            Err(error) => image == Err::<RgbaImage, PixelError>(error),
            Ok(format) => {
                let need = format.stride(geometry.width as nat) * geometry.height;
                if need > usize::MAX {
                    image == Err::<RgbaImage, PixelError>(PixelError::StrideOverflow)
                } else if data@.len() < need {
                    image == Err::<RgbaImage, PixelError>(
                        PixelError::TooShort { got: data@.len() as usize, need: need as usize },
                    )
                } else {
                    &&& image is Ok
                    &&& exists|full: RgbaImage| #[trigger]
                        format.decodes_to(data@, geometry.width, geometry.height, full)
                            && brought_down(full, limit, image->Ok_0)
                }
            },
        },
{
    let visual: u32 = if visual == 0 {
        geometry.visual
    } else {
        visual
    };
    match pixels::ximage_to_rgba(
        setup,
        visual,
        depth,
        geometry.width,
        geometry.height,
        data,
    ) {
        Ok(full) => {
            let small: RgbaImage = scale_for_cache(&full, limit);
            Ok(small)
        },
        Err(error) => Err(error),
    }
}

/// Why a window could not be captured.
#[derive(Debug, Clone, Copy, PartialEq, Eq, Structural)]
pub enum CaptureError {
    Attributes(Fault),
    NotViewable,
    Geometry(Fault),
    EmptyGeometry,
    Redirect(Fault),
    AllocatePixmap,
    NamePixmap(Fault),
    ReadImage(Fault),
    Pixels(PixelError),
}

impl CaptureError {
    /// What went wrong, in words.
    pub open spec fn spec_message(self) -> Seq<char> {
        match self {
            CaptureError::Attributes(Fault::Send) => "failed to request window attributes"@,
            CaptureError::Attributes(Fault::Reply) => "failed to read window attributes"@,
            CaptureError::NotViewable => {
                "window did not become viewable after workspace switch"@
            },
            CaptureError::Geometry(Fault::Send) => "failed to request window geometry"@,
            CaptureError::Geometry(Fault::Reply) => "failed to read window geometry"@,
            CaptureError::EmptyGeometry => "window has empty geometry"@,
            CaptureError::Redirect(Fault::Send) => "failed to request XComposite redirect"@,
            CaptureError::Redirect(Fault::Reply) => "XComposite rejected redirect for window"@,
            CaptureError::AllocatePixmap => "failed to allocate capture pixmap id"@,
            CaptureError::NamePixmap(Fault::Send) => "failed to request named window pixmap"@,
            CaptureError::NamePixmap(Fault::Reply) => "XComposite could not name window pixmap"@,
            CaptureError::ReadImage(Fault::Send) => "failed to request XImage"@,
            CaptureError::ReadImage(Fault::Reply) => "failed to receive XImage"@,
            CaptureError::Pixels(error) => error.spec_message(),
        }
    }

    /// What went wrong, in words.
    pub fn message(self) -> (message: String)
        ensures
            message@ == self.spec_message(),
    {
        match self {
            CaptureError::Attributes(Fault::Send) => {
                "failed to request window attributes".to_owned()
            },
            CaptureError::Attributes(Fault::Reply) => "failed to read window attributes".to_owned(),
            CaptureError::NotViewable => {
                "window did not become viewable after workspace switch".to_owned()
            },
            CaptureError::Geometry(Fault::Send) => "failed to request window geometry".to_owned(),
            CaptureError::Geometry(Fault::Reply) => "failed to read window geometry".to_owned(),
            CaptureError::EmptyGeometry => "window has empty geometry".to_owned(),
            CaptureError::Redirect(Fault::Send) => {
                "failed to request XComposite redirect".to_owned()
            },
            CaptureError::Redirect(Fault::Reply) => {
                "XComposite rejected redirect for window".to_owned()
            },
            CaptureError::AllocatePixmap => "failed to allocate capture pixmap id".to_owned(),
            CaptureError::NamePixmap(Fault::Send) => {
                "failed to request named window pixmap".to_owned()
            },
            CaptureError::NamePixmap(Fault::Reply) => {
                "XComposite could not name window pixmap".to_owned()
            },
            CaptureError::ReadImage(Fault::Send) => "failed to request XImage".to_owned(),
            CaptureError::ReadImage(Fault::Reply) => "failed to receive XImage".to_owned(),
            CaptureError::Pixels(error) => error.message(),
        }
    }
}

/// How far the capture of a window has come.
#[derive(Debug, Clone, Copy, PartialEq, Eq, Structural)]
pub enum CaptureStage {
    /// Looking whether the window is viewable.
    Looking,
    /// Waiting before looking again.
    Waiting,
    /// Asking for the visual of the window.
    Inspecting,
    /// Asking for the size of the window, whose visual is known.
    Measuring { visual: u32 },
    /// Redirecting the window off screen.
    Redirecting,
    /// Allocating a pixmap.
    Allocating,
    /// Naming the pixmap after the window's contents.
    Naming,
    /// Reading the pixels.
    Reading,
    /// Giving the pixmap back.
    Freeing,
    /// Ending the redirection.
    Unredirecting,
    Done,
}

/// The mask of all planes of a pixmap.
pub const ALL_PLANES: u32 = 0xffff_ffff;

/// What the capture of a window asks for next.
#[derive(Debug, Clone, Copy, PartialEq, Eq, Structural)]
pub enum CaptureAction {
    ReadAttributes { window: u32 },
    Sleep { milliseconds: u64 },
    ReadGeometry { window: u32 },
    Redirect { window: u32, update: u8 },
    AllocatePixmap,
    NamePixmap { window: u32, pixmap: u32 },
    /// Read a part of the pixmap, pixel by pixel, in the planes of the mask.
    ReadImage { pixmap: u32, x: i16, y: i16, width: u16, height: u16, plane_mask: u32 },
    FreePixmap { pixmap: u32 },
    Unredirect { window: u32, update: u8 },
    Nothing,
}

/// What came of an action.
#[derive(Debug, Clone, Copy, PartialEq, Eq, Structural)]
pub enum CaptureEvent {
    /// The window's attributes, and the milliseconds since the capture began.
    Attributes { attributes: WindowAttributes, elapsed_ms: u64 },
    Geometry(Extent),
    /// A number for the pixmap.
    Allocated(u32),
    /// The server did what it was asked.
    Done,
    /// The pixels came, and could not be read.
    NotDecoded(PixelError),
    Failed(Fault),
}

/// The capture of a window: where it stands, and what it holds of the server.
#[derive(Debug, Clone, Copy)]
pub struct Capture {
    pub stage: CaptureStage,
    pub window: u32,
    pub geometry: WindowGeometry,
    /// A pixmap that has to be freed.
    pub pixmap: Option<u32>,
    /// The window is redirected.
    pub redirected: bool,
    /// Why there is no picture.
    pub error: Option<CaptureError>,
}

impl Capture {
    /// A capture that has not begun.
    pub open spec fn fresh(self) -> bool {
        self.stage == CaptureStage::Looking && self.pixmap is None && !self.redirected
            && self.error is None
    }

    /// Everything that was taken from the server is held, and what is not needed is not: nothing
    /// before the window is redirected, and nothing at the end.
    pub open spec fn sound(self) -> bool {
        match self.stage {
            CaptureStage::Looking | CaptureStage::Waiting | CaptureStage::Inspecting
            | CaptureStage::Measuring { .. } | CaptureStage::Redirecting => {
                self.pixmap is None && !self.redirected && self.error is None
            },
            CaptureStage::Allocating => {
                self.pixmap is None && self.redirected && self.error is None
            },
            CaptureStage::Naming | CaptureStage::Reading => {
                self.pixmap is Some && self.redirected && self.error is None
            },
            CaptureStage::Freeing => self.pixmap is Some && self.redirected,
            CaptureStage::Unredirecting => self.pixmap is None && self.redirected,
            CaptureStage::Done => self.pixmap is None && !self.redirected,
        }
    }

    /// What to ask for.
    pub open spec fn next(self) -> CaptureAction {
        let window: u32 = self.window;
        let update: u8 = x11::REDIRECT_AUTOMATIC;
        match (self.stage, self.pixmap) {
            (CaptureStage::Looking, _) => CaptureAction::ReadAttributes { window },
            (CaptureStage::Waiting, _) => CaptureAction::Sleep { milliseconds: VIEWABLE_POLL_MS },
            (CaptureStage::Inspecting, _) => CaptureAction::ReadAttributes { window },
            (CaptureStage::Measuring { .. }, _) => CaptureAction::ReadGeometry { window },
            (CaptureStage::Redirecting, _) => CaptureAction::Redirect { window, update },
            (CaptureStage::Allocating, _) => CaptureAction::AllocatePixmap,
            (CaptureStage::Naming, Some(pixmap)) => CaptureAction::NamePixmap { window, pixmap },
            (CaptureStage::Reading, Some(pixmap)) => {
                CaptureAction::ReadImage {
                    pixmap,
                    x: 0,
                    y: 0,
                    width: self.geometry.width,
                    height: self.geometry.height,
                    plane_mask: ALL_PLANES,
                }
            },
            (CaptureStage::Freeing, Some(pixmap)) => CaptureAction::FreePixmap { pixmap },
            (CaptureStage::Unredirecting, _) => CaptureAction::Unredirect { window, update },
            _ => CaptureAction::Nothing,
        }
    }

    /// The capture in another stage.
    pub open spec fn at(self, stage: CaptureStage) -> Capture {
        Capture { stage, ..self }
    }

    /// The capture on its way out: what is held is given back first.
    pub open spec fn leaving(self) -> Capture {
        if self.pixmap is Some {
            self.at(CaptureStage::Freeing)
        } else if self.redirected {
            self.at(CaptureStage::Unredirecting)
        } else {
            self.at(CaptureStage::Done)
        }
    }

    /// The capture after a failure.
    pub open spec fn failed(self, error: CaptureError) -> Capture {
        Capture { error: Some(error), ..self }.leaving()
    }

    /// The capture after an event. An event that does not answer the action changes nothing.
    pub open spec fn after(self, event: CaptureEvent) -> Capture {
        match (self.stage, event) {
            (CaptureStage::Looking, CaptureEvent::Attributes { attributes, elapsed_ms }) => {
                if attributes.viewable {
                    self.at(CaptureStage::Inspecting)
                } else if elapsed_ms >= VIEWABLE_TIMEOUT_MS {
                    self.failed(CaptureError::NotViewable)
                } else {
                    self.at(CaptureStage::Waiting)
                }
            },
            (CaptureStage::Looking, CaptureEvent::Failed(fault)) => {
                self.failed(CaptureError::Attributes(fault))
            },
            (CaptureStage::Waiting, CaptureEvent::Done) => self.at(CaptureStage::Looking),
            (CaptureStage::Inspecting, CaptureEvent::Attributes { attributes, .. }) => {
                self.at(CaptureStage::Measuring { visual: attributes.visual })
            },
            (CaptureStage::Inspecting, CaptureEvent::Failed(fault)) => {
                self.failed(CaptureError::Attributes(fault))
            },
            (CaptureStage::Measuring { visual }, CaptureEvent::Geometry(extent)) => {
                let measured = Capture {
                    geometry: windows::geometry_at(extent, visual, (extent.x, extent.y)),
                    ..self
                };
                if extent.is_empty() {
                    measured.failed(CaptureError::EmptyGeometry)
                } else {
                    measured.at(CaptureStage::Redirecting)
                }
            },
            (CaptureStage::Measuring { .. }, CaptureEvent::Failed(fault)) => {
                self.failed(CaptureError::Geometry(fault))
            },
            (CaptureStage::Redirecting, CaptureEvent::Done) => {
                Capture { redirected: true, ..self }.at(CaptureStage::Allocating)
            },
            (CaptureStage::Redirecting, CaptureEvent::Failed(fault)) => {
                self.failed(CaptureError::Redirect(fault))
            },
            (CaptureStage::Allocating, CaptureEvent::Allocated(pixmap)) => {
                Capture { pixmap: Some(pixmap), ..self }.at(CaptureStage::Naming)
            },
            (CaptureStage::Allocating, CaptureEvent::Failed(_)) => {
                self.failed(CaptureError::AllocatePixmap)
            },
            (CaptureStage::Naming, CaptureEvent::Done) => self.at(CaptureStage::Reading),
            (CaptureStage::Naming, CaptureEvent::Failed(fault)) => {
                self.failed(CaptureError::NamePixmap(fault))
            },
            (CaptureStage::Reading, CaptureEvent::Done) => self.leaving(),
            (CaptureStage::Reading, CaptureEvent::NotDecoded(error)) => {
                self.failed(CaptureError::Pixels(error))
            },
            (CaptureStage::Reading, CaptureEvent::Failed(fault)) => {
                self.failed(CaptureError::ReadImage(fault))
            },
            (CaptureStage::Freeing, CaptureEvent::Done | CaptureEvent::Failed(_)) => {
                Capture { pixmap: None, ..self }.leaving()
            },
            (CaptureStage::Unredirecting, CaptureEvent::Done | CaptureEvent::Failed(_)) => {
                Capture { redirected: false, ..self }.leaving()
            },
            _ => self,
        }
    }

    /// A capture that has not begun, of a window with the given geometry.
    pub fn new(window: u32, geometry: WindowGeometry) -> (capture: Capture)
        ensures
            capture.fresh(),
            capture.sound(),
            capture.window == window,
            capture.geometry == geometry,
    {
        Capture {
            stage: CaptureStage::Looking,
            window,
            geometry,
            pixmap: None,
            redirected: false,
            error: None,
        }
    }

    /// What to ask for.
    pub fn action(&self) -> (action: CaptureAction)
        ensures
            action == self.next(),
    {
        let window: u32 = self.window;
        let update: u8 = x11::REDIRECT_AUTOMATIC;
        match (self.stage, self.pixmap) {
            (CaptureStage::Looking, _) => CaptureAction::ReadAttributes { window },
            (CaptureStage::Waiting, _) => CaptureAction::Sleep { milliseconds: VIEWABLE_POLL_MS },
            (CaptureStage::Inspecting, _) => CaptureAction::ReadAttributes { window },
            (CaptureStage::Measuring { .. }, _) => CaptureAction::ReadGeometry { window },
            (CaptureStage::Redirecting, _) => CaptureAction::Redirect { window, update },
            (CaptureStage::Allocating, _) => CaptureAction::AllocatePixmap,
            (CaptureStage::Naming, Some(pixmap)) => CaptureAction::NamePixmap { window, pixmap },
            (CaptureStage::Reading, Some(pixmap)) => {
                CaptureAction::ReadImage {
                    pixmap,
                    x: 0,
                    y: 0,
                    width: self.geometry.width,
                    height: self.geometry.height,
                    plane_mask: ALL_PLANES,
                }
            },
            (CaptureStage::Freeing, Some(pixmap)) => CaptureAction::FreePixmap { pixmap },
            (CaptureStage::Unredirecting, _) => CaptureAction::Unredirect { window, update },
            _ => CaptureAction::Nothing,
        }
    }

    fn leave(&mut self)
        ensures
            *final(self) == old(self).leaving(),
    {
        self.stage = if self.pixmap.is_some() {
            CaptureStage::Freeing
        } else if self.redirected {
            CaptureStage::Unredirecting
        } else {
            CaptureStage::Done
        };
    }

    fn fail(&mut self, error: CaptureError)
        ensures
            *final(self) == old(self).failed(error),
    {
        self.error = Some(error);
        self.leave();
    }

    /// Takes in what came of the action.
    pub fn handle(&mut self, event: CaptureEvent)
        ensures
            *final(self) == old(self).after(event),
            old(self).sound() ==> final(self).sound(),
    {
        match (self.stage, event) {
            (CaptureStage::Looking, CaptureEvent::Attributes { attributes, elapsed_ms }) => {
                if attributes.viewable {
                    self.stage = CaptureStage::Inspecting;
                } else if elapsed_ms >= VIEWABLE_TIMEOUT_MS {
                    self.fail(CaptureError::NotViewable);
                } else {
                    self.stage = CaptureStage::Waiting;
                }
            },
            (CaptureStage::Looking, CaptureEvent::Failed(fault)) => {
                self.fail(CaptureError::Attributes(fault));
            },
            (CaptureStage::Waiting, CaptureEvent::Done) => {
                self.stage = CaptureStage::Looking;
            },
            (CaptureStage::Inspecting, CaptureEvent::Attributes { attributes, .. }) => {
                self.stage = CaptureStage::Measuring { visual: attributes.visual };
            },
            (CaptureStage::Inspecting, CaptureEvent::Failed(fault)) => {
                self.fail(CaptureError::Attributes(fault));
            },
            (CaptureStage::Measuring { visual }, CaptureEvent::Geometry(extent)) => {
                self.geometry = i3::refresh_geometry(visual, &extent);
                if extent.width == 0 || extent.height == 0 {
                    self.fail(CaptureError::EmptyGeometry);
                } else {
                    self.stage = CaptureStage::Redirecting;
                }
            },
            (CaptureStage::Measuring { .. }, CaptureEvent::Failed(fault)) => {
                self.fail(CaptureError::Geometry(fault));
            },
            (CaptureStage::Redirecting, CaptureEvent::Done) => {
                self.redirected = true;
                self.stage = CaptureStage::Allocating;
            },
            (CaptureStage::Redirecting, CaptureEvent::Failed(fault)) => {
                self.fail(CaptureError::Redirect(fault));
            },
            (CaptureStage::Allocating, CaptureEvent::Allocated(pixmap)) => {
                self.pixmap = Some(pixmap);
                self.stage = CaptureStage::Naming;
            },
            (CaptureStage::Allocating, CaptureEvent::Failed(_)) => {
                self.fail(CaptureError::AllocatePixmap);
            },
            (CaptureStage::Naming, CaptureEvent::Done) => {
                self.stage = CaptureStage::Reading;
            },
            (CaptureStage::Naming, CaptureEvent::Failed(fault)) => {
                self.fail(CaptureError::NamePixmap(fault));
            },
            (CaptureStage::Reading, CaptureEvent::Done) => {
                self.leave();
            },
            (CaptureStage::Reading, CaptureEvent::NotDecoded(error)) => {
                self.fail(CaptureError::Pixels(error));
            },
            (CaptureStage::Reading, CaptureEvent::Failed(fault)) => {
                self.fail(CaptureError::ReadImage(fault));
            },
            (CaptureStage::Freeing, CaptureEvent::Done | CaptureEvent::Failed(_)) => {
                self.pixmap = None;
                self.leave();
            },
            (CaptureStage::Unredirecting, CaptureEvent::Done | CaptureEvent::Failed(_)) => {
                self.redirected = false;
                self.leave();
            },
            _ => {},
        }
    }
}

/// The capture after a run of events.
pub open spec fn after_all(capture: Capture, events: Seq<CaptureEvent>) -> Capture
    decreases events.len(),
{
    if events.len() == 0 {
        capture
    } else {
        after_all(capture, events.drop_last()).after(events.last())
    }
}

/// Whatever the server answers, a capture that has come to its end holds neither a pixmap nor a
/// redirection, and one that is still under way has all it holds on record.
pub proof fn law_capture_gives_everything_back(capture: Capture, events: Seq<CaptureEvent>)
    requires
        capture.fresh(),
    ensures
        after_all(capture, events).sound(),
        after_all(capture, events).stage == CaptureStage::Done ==> {
            &&& after_all(capture, events).pixmap is None
            &&& !after_all(capture, events).redirected
        },
    decreases events.len(),
{
    if events.len() > 0 {
        law_capture_gives_everything_back(capture, events.drop_last());
    }
}

/// A pixmap leaves the record only when it is freed, and a redirection only when it is ended; the
/// capture stays that of its window.
pub proof fn law_capture_forgets_nothing(capture: Capture, event: CaptureEvent)
    requires
        capture.sound(),
    ensures
        capture.pixmap is Some && capture.after(event).pixmap != capture.pixmap ==> {
            capture.next() == CaptureAction::FreePixmap { pixmap: capture.pixmap->0 }
        },
        capture.redirected && !capture.after(event).redirected ==> {
            capture.next() == CaptureAction::Unredirect {
                window: capture.window,
                update: x11::REDIRECT_AUTOMATIC,
            }
        },
        capture.after(event).window == capture.window,
{
}

/// The first failure of a capture is the one that is told.
pub proof fn law_capture_keeps_first_error(capture: Capture, event: CaptureEvent)
    requires
        capture.sound(),
        capture.error is Some,
    ensures
        capture.after(event).error == capture.error,
{
}

/// Which windows a sweep takes.
#[derive(Debug, Clone, Copy, PartialEq, Eq, Structural)]
pub enum CaptureScope {
    AllWorkspaces,
    CurrentWorkspaceOnly,
}

/// What a step of a sweep has brought.
#[derive(Debug, Clone, Copy, PartialEq, Eq, Structural)]
pub enum SweepStatus {
    Updated,
    Finished,
}

/// A window to capture: its place in the list of windows, and its workspace.
#[derive(Debug)]
pub struct CaptureTask {
    pub index: usize,
    pub workspace: String,
}

/// A sweep over the workspaces that captures every window whose thumbnail is missing or stale.
pub struct CaptureSweep {
    /// The windows that are still to be captured.
    pub tasks: VecDeque<CaptureTask>,
    /// The workspace to come back to.
    pub original_workspace: Option<String>,
    /// The workspace that the sweep has switched to.
    pub active_workspace: Option<String>,
    /// The sweep has come back.
    pub restored: bool,
    pub debug: bool,
}

/// What a step of a sweep asks for.
#[derive(Debug)]
pub enum SweepStep {
    /// Switch to the workspace, if one is named, and let it settle; then capture the window, if
    /// there is one.
    Capture { switch: Option<String>, index: Option<usize> },
    /// Nothing is left: switch back to the workspace, if one is named.
    Finish { restore: Option<String> },
}

impl SweepStep {
    /// What the step brings once it is carried out.
    pub fn status(&self) -> (status: SweepStatus)
        ensures
            status == (if self is Finish {
                SweepStatus::Finished
            } else {
                SweepStatus::Updated
            }),
    {
        match self {
            SweepStep::Finish { .. } => SweepStatus::Finished,
            SweepStep::Capture { .. } => SweepStatus::Updated,
        }
    }
}

/// The workspace of a window, if it is known.
pub open spec fn known_workspace(workspace: Seq<char>) -> Option<Seq<char>> {
    if workspace.len() == 0 {
        None
    } else {
        Some(workspace)
    }
}

/// Some window's workspace is known.
pub open spec fn any_workspace_known(windows: Seq<WindowInfo>) -> bool {
    exists|i: int| 0 <= i < windows.len() && (#[trigger] windows[i]).workspace@.len() > 0
}

/// The workspace that a sweep over these windows comes from.
pub open spec fn origin_of(windows: Seq<WindowInfo>, current: Option<String>) -> Option<String> {
    if any_workspace_known(windows) {
        current
    } else {
        None
    }
}

/// The workspace that a sweep over these windows comes from, if `current` is the one in use:
/// none where no window's workspace is known, so that there is nowhere to go.
pub fn sweep_origin(windows: &[WindowInfo], current: Option<String>) -> (origin: Option<String>)
    ensures
        origin == (if any_workspace_known(windows@) {
            current
        } else {
            None
        }),
        origin == origin_of(windows@, current),
{
    let mut i: usize = 0;
    while i < windows.len()
        invariant
            i <= windows@.len(),
            forall|j: int| 0 <= j < i ==> (#[trigger] windows@[j]).workspace@.len() == 0,
        decreases windows@.len() - i,
    {
        if !text::is_blank(windows[i].workspace.as_str()) {
            assert(windows@[i as int].workspace@.len() > 0);
            return current;
        }
        i += 1;
    }
    None
}

/// A window belongs to a sweep. Where the current workspace is not known, it is the one of the
/// windows whose workspace is not known either.
pub open spec fn in_scope(
    window: WindowInfo,
    scope: CaptureScope,
    current: Option<Seq<char>>,
) -> bool {
    match scope {
        CaptureScope::AllWorkspaces => true,
        CaptureScope::CurrentWorkspaceOnly => current == known_workspace(window.workspace@),
    }
}

/// The tasks of a sweep: the windows in scope whose thumbnails are stale, in their order.
pub open spec fn tasks_for(
    windows: Seq<WindowInfo>,
    stale: Seq<bool>,
    scope: CaptureScope,
    current: Option<Seq<char>>,
) -> Seq<CaptureTask>
    decreases windows.len(),
{
    if windows.len() == 0 {
        seq![]
    } else {
        let before = tasks_for(windows.drop_last(), stale, scope, current);
        let index = windows.len() - 1;
        if stale[index] && in_scope(windows[index], scope, current) {
            before.push(
                CaptureTask { index: index as usize, workspace: windows[index].workspace },
            )
        } else {
            before
        }
    }
}

impl CaptureSweep {
    /// The workspace that the sweep has to switch back to, if any.
    pub open spec fn owed(self) -> Option<Seq<char>> {
        if self.restored || text::option_view(self.original_workspace) == text::option_view(
            self.active_workspace,
        ) {
            None
        } else {
            text::option_view(self.original_workspace)
        }
    }

    /// The workspace that has to be switched to before a task.
    pub open spec fn detour(self, task: CaptureTask) -> Option<Seq<char>> {
        if self.original_workspace is Some && text::option_view(self.active_workspace) != Some(
            task.workspace@,
        ) {
            Some(task.workspace@)
        } else {
            None
        }
    }

    /// `step` is what the next step of the sweep asks for, and `next` is the sweep after it.
    pub open spec fn steps_to(
        self,
        window_count: usize,
        step: SweepStep,
        next: CaptureSweep,
    ) -> bool {
        &&& next.original_workspace == self.original_workspace
        &&& next.active_workspace == self.active_workspace
        &&& next.debug == self.debug
        &&& match step {
            SweepStep::Finish { restore } => {
                &&& self.tasks@.len() == 0
                &&& text::option_view(restore) == self.owed()
                &&& next.tasks@ == self.tasks@
                &&& next.restored
            },
            SweepStep::Capture { switch, index } => {
                &&& self.tasks@.len() > 0
                &&& text::option_view(switch) == self.detour(self.tasks@[0])
                &&& index == (if self.tasks@[0].index < window_count {
                    Some(self.tasks@[0].index)
                } else {
                    None
                })
                &&& next.tasks@ == self.tasks@.skip(1)
                &&& next.restored == self.restored
            },
        }
    }

    /// A sweep over the windows whose thumbnails are stale.
    pub fn new(
        windows: &[WindowInfo],
        stale: &Vec<bool>,
        original_workspace: Option<String>,
        scope: CaptureScope,
        debug: bool,
    ) -> (sweep: CaptureSweep)
        requires
            stale@.len() == windows@.len(),
        ensures
            sweep.tasks@ == tasks_for(
                windows@,
                stale@,
                scope,
                text::option_view(original_workspace),
            ),
            sweep.original_workspace == original_workspace,
            sweep.active_workspace is None,
            !sweep.restored,
            sweep.debug == debug,
    {
        let mut tasks: VecDeque<CaptureTask> = VecDeque::new();
        let mut index: usize = 0;
        assert(windows@.take(0) =~= seq![]);
        while index < windows.len()
            invariant
                index <= windows@.len(),
                stale@.len() == windows@.len(),
                tasks@ == tasks_for(
                    windows@.take(index as int),
                    stale@,
                    scope,
                    text::option_view(original_workspace),
                ),
            decreases windows@.len() - index,
        {
            let window: &WindowInfo = &windows[index];
            let inside: bool = match scope {
                CaptureScope::AllWorkspaces => true,
                CaptureScope::CurrentWorkspaceOnly => match &original_workspace {
                    Some(current) => {
                        !text::is_blank(window.workspace.as_str()) && text::same_text(
                            current.as_str(),
                            window.workspace.as_str(),
                        )
                    },
                    None => text::is_blank(window.workspace.as_str()),
                },
            };
            assert(windows@.take(index + 1).drop_last() =~= windows@.take(index as int));
            if stale[index] && inside {
                tasks.push_back(CaptureTask { index, workspace: window.workspace.clone() });
            }
            index += 1;
        }
        assert(windows@.take(index as int) =~= windows@);
        CaptureSweep {
            tasks,
            original_workspace,
            active_workspace: None,
            restored: false,
            debug,
        }
    }

    /// No window is left to capture.
    pub fn is_empty(&self) -> (empty: bool)
        ensures
            empty == (self.tasks@.len() == 0),
    {
        self.tasks.len() == 0
    }

    /// Takes the next window off the list. `window_count` windows are known.
    pub fn step(&mut self, window_count: usize) -> (step: SweepStep)
        ensures
            final(self).original_workspace == old(self).original_workspace,
            final(self).active_workspace == old(self).active_workspace,
            final(self).debug == old(self).debug,
            if old(self).tasks@.len() == 0 {
                &&& step is Finish
                &&& text::option_view(step->restore) == old(self).owed()
                &&& final(self).tasks@ == old(self).tasks@
                &&& final(self).restored
            } else {
                let task = old(self).tasks@[0];
                &&& step is Capture
                &&& text::option_view(step->switch) == old(self).detour(task)
                &&& step->index == (if task.index < window_count {
                    Some(task.index)
                } else {
                    None
                })
                &&& final(self).tasks@ == old(self).tasks@.skip(1)
                &&& final(self).restored == old(self).restored
            },
            old(self).steps_to(window_count, step, *final(self)),
    {
        match self.tasks.pop_front() {
            None => SweepStep::Finish { restore: self.restore_original_workspace() },
            Some(task) => {
                let there: bool = match &self.active_workspace {
                    Some(active) => text::same_text(active.as_str(), task.workspace.as_str()),
                    None => false,
                };
                let index: Option<usize> = if task.index < window_count {
                    Some(task.index)
                } else {
                    None
                };
                let switch: Option<String> = if self.original_workspace.is_some() && !there {
                    Some(task.workspace)
                } else {
                    None
                };
                assert(self.tasks@ =~= old(self).tasks@.skip(1));
                SweepStep::Capture { switch, index }
            },
        }
    }

    /// Notes that the sweep has switched to a workspace.
    pub fn switched(&mut self, workspace: String)
        ensures
            *final(self) == (CaptureSweep { active_workspace: Some(workspace), ..*old(self) }),
    {
        self.active_workspace = Some(workspace);
    }

    /// Breaks the sweep off. The workspace to switch back to comes back, if there is one.
    pub fn cancel(&mut self) -> (restore: Option<String>)
        ensures
            text::option_view(restore) == old(self).owed(),
            *final(self) == (CaptureSweep { restored: true, ..*old(self) }),
    {
        self.restore_original_workspace()
    }

    fn restore_original_workspace(&mut self) -> (restore: Option<String>)
        ensures
            text::option_view(restore) == old(self).owed(),
            *final(self) == (CaptureSweep { restored: true, ..*old(self) }),
    {
        if self.restored {
            return None;
        }
        self.restored = true;
        match (&self.original_workspace, &self.active_workspace) {
            (Some(original), Some(active)) => {
                if text::same_text(active.as_str(), original.as_str()) {
                    None
                } else {
                    Some(original.clone())
                }
            },
            (Some(original), None) => Some(original.clone()),
            (None, _) => None,
        }
    }
}

/// A sweep goes back to where it came from at most once: once it has come back, neither its end
/// nor breaking it off asks for another switch.
pub proof fn law_sweep_comes_back_once(sweep: CaptureSweep)
    ensures
        (CaptureSweep { restored: true, ..sweep }).owed() is None,
{
}

/// A sweep that knows where it came from, and has switched away, owes the way back until it has
/// come back.
pub proof fn law_sweep_owes_the_way_back(sweep: CaptureSweep)
    requires
        !sweep.restored,
        sweep.original_workspace is Some,
        sweep.active_workspace is Some,
        sweep.active_workspace->0@ != sweep.original_workspace->0@,
    ensures
        sweep.owed() == Some(sweep.original_workspace->0@),
{
}

/// A sweep that does not know where it came from never switches.
pub proof fn law_sweep_stays_when_lost(sweep: CaptureSweep, task: CaptureTask)
    requires
        sweep.original_workspace is None,
    ensures
        sweep.detour(task) is None,
        sweep.owed() is None,
{
}

/// A sweep over the current workspace alone captures no window of another one, so that it
/// switches at most to where it already is.
pub proof fn law_background_sweep_stays(
    windows: Seq<WindowInfo>,
    stale: Seq<bool>,
    current: Option<Seq<char>>,
    place: int,
)
    requires
        0 <= place < tasks_for(
            windows,
            stale,
            CaptureScope::CurrentWorkspaceOnly,
            current,
        ).len(),
    ensures
        ({
            let tasks = tasks_for(windows, stale, CaptureScope::CurrentWorkspaceOnly, current);
            current == known_workspace(tasks[place].workspace@)
        }),
    decreases windows.len(),
{
    if windows.len() > 0 {
        let before = tasks_for(
            windows.drop_last(),
            stale,
            CaptureScope::CurrentWorkspaceOnly,
            current,
        );
        if place < before.len() {
            law_background_sweep_stays(windows.drop_last(), stale, current, place);
        }
    }
}

/// The tasks of a sweep over all workspaces are the stale windows, each once, in their order.
pub proof fn law_sweep_takes_stale_windows_in_order(
    windows: Seq<WindowInfo>,
    stale: Seq<bool>,
    current: Option<Seq<char>>,
)
    requires
        windows.len() <= usize::MAX,
    ensures
        ({
            let tasks = tasks_for(windows, stale, CaptureScope::AllWorkspaces, current);
            &&& forall|i: int, j: int|
                0 <= i < j < tasks.len() ==> (#[trigger] tasks[i]).index < (
                #[trigger] tasks[j]).index
            &&& forall|i: int|
                0 <= i < tasks.len() ==> {
                    &&& (#[trigger] tasks[i]).index < windows.len()
                    &&& stale[tasks[i].index as int]
                    &&& tasks[i].workspace == windows[tasks[i].index as int].workspace
                }
            &&& forall|w: int|
                0 <= w < windows.len() && #[trigger] stale[w] ==> exists|i: int|
                    0 <= i < tasks.len() && (#[trigger] tasks[i]).index == w
        }),
    decreases windows.len(),
{
    if windows.len() > 0 {
        let rest = windows.drop_last();
        law_sweep_takes_stale_windows_in_order(rest, stale, current);
        let before = tasks_for(rest, stale, CaptureScope::AllWorkspaces, current);
        let tasks = tasks_for(windows, stale, CaptureScope::AllWorkspaces, current);
        let last = windows.len() - 1;
        assert forall|w: int| 0 <= w < windows.len() && #[trigger] stale[w] implies exists|i: int|
            0 <= i < tasks.len() && (#[trigger] tasks[i]).index == w by {
            if w < last {
                let i = choose|i: int| 0 <= i < before.len() && (#[trigger] before[i]).index == w;
                assert(tasks[i].index == w);
            } else {
                assert(tasks[tasks.len() - 1].index == w);
            }
        }
    }
}

/// A capture that nothing hinders asks for the attributes until the window is viewable, for its
/// visual and its size, redirects it, names a pixmap after it, reads the whole of that and gives
/// back both, and is then over without an error; what it measured is the window's.
pub proof fn law_capture_runs_its_course(
    capture: Capture,
    attributes: WindowAttributes,
    visual: WindowAttributes,
    elapsed_ms: u64,
    extent: Extent,
    pixmap: u32,
)
    requires
        capture.fresh(),
        attributes.viewable,
        extent.width > 0,
        extent.height > 0,
    ensures
        ({
            let window = capture.window;
            let looked = capture.after(CaptureEvent::Attributes { attributes, elapsed_ms });
            let inspected = looked.after(
                CaptureEvent::Attributes { attributes: visual, elapsed_ms },
            );
            let measured = inspected.after(CaptureEvent::Geometry(extent));
            let redirected = measured.after(CaptureEvent::Done);
            let allocated = redirected.after(CaptureEvent::Allocated(pixmap));
            let named = allocated.after(CaptureEvent::Done);
            let read = named.after(CaptureEvent::Done);
            let freed = read.after(CaptureEvent::Done);
            let over = freed.after(CaptureEvent::Done);
            &&& capture.next() == (CaptureAction::ReadAttributes { window })
            &&& looked.next() == (CaptureAction::ReadAttributes { window })
            &&& inspected.next() == (CaptureAction::ReadGeometry { window })
            &&& measured.next() == (CaptureAction::Redirect { window, update: 0 })
            &&& redirected.next() == CaptureAction::AllocatePixmap
            &&& allocated.next() == (CaptureAction::NamePixmap { window, pixmap })
            &&& named.next() == (CaptureAction::ReadImage {
                pixmap,
                x: 0,
                y: 0,
                width: extent.width,
                height: extent.height,
                plane_mask: 0xffff_ffff,
            })
            &&& read.next() == (CaptureAction::FreePixmap { pixmap })
            &&& freed.next() == (CaptureAction::Unredirect { window, update: 0 })
            &&& over.next() == CaptureAction::Nothing
            &&& over.error is None
            &&& over.geometry == (WindowGeometry {
                x: extent.x,
                y: extent.y,
                width: extent.width,
                height: extent.height,
                depth: extent.depth,
                visual: visual.visual,
            })
        }),
{
}

/// A window that is not viewable is looked at again after 35 milliseconds, and given up once 1200
/// have passed.
pub proof fn law_capture_waits_for_the_window(
    capture: Capture,
    attributes: WindowAttributes,
    elapsed_ms: u64,
)
    requires
        capture.fresh(),
        !attributes.viewable,
    ensures
        ({
            let next = capture.after(CaptureEvent::Attributes { attributes, elapsed_ms });
            if elapsed_ms < 1200 {
                &&& next.next() == (CaptureAction::Sleep { milliseconds: 35 })
                &&& next.after(CaptureEvent::Done).next() == capture.next()
                &&& next.after(CaptureEvent::Done).fresh()
            } else {
                &&& next.next() == CaptureAction::Nothing
                &&& next.error == Some(CaptureError::NotViewable)
            }
        }),
{
}

/// The failure of what was asked for is the error, and what is held is given back then: the
/// pixmap first, then the redirection. A failure to give back is no error.
pub proof fn law_capture_failures_are_told(capture: Capture, fault: Fault)
    requires
        capture.sound(),
    ensures
        ({
            let next = capture.after(CaptureEvent::Failed(fault));
            &&& match capture.next() {
                CaptureAction::ReadAttributes { .. } => next.error == Some(
                    CaptureError::Attributes(fault),
                ) && next.next() == CaptureAction::Nothing,
                CaptureAction::ReadGeometry { .. } => next.error == Some(
                    CaptureError::Geometry(fault),
                ) && next.next() == CaptureAction::Nothing,
                CaptureAction::Redirect { .. } => next.error == Some(CaptureError::Redirect(fault))
                    && next.next() == CaptureAction::Nothing,
                CaptureAction::AllocatePixmap => next.error == Some(CaptureError::AllocatePixmap)
                    && next.next() is Unredirect,
                CaptureAction::NamePixmap { pixmap, .. } => next.error == Some(
                    CaptureError::NamePixmap(fault),
                ) && next.next() == (CaptureAction::FreePixmap { pixmap }),
                CaptureAction::ReadImage { pixmap, .. } => next.error == Some(
                    CaptureError::ReadImage(fault),
                ) && next.next() == (CaptureAction::FreePixmap { pixmap }),
                CaptureAction::FreePixmap { .. } => next.error == capture.error
                    && next.next() is Unredirect,
                CaptureAction::Unredirect { .. } => next.error == capture.error && next.next()
                    == CaptureAction::Nothing,
                _ => next == capture,
            }
        }),
{
}

/// A window without pixels, and pixels that cannot be read, are errors too.
pub proof fn law_captures_without_pixels_are_told(
    capture: Capture,
    extent: Extent,
    error: PixelError,
)
    requires
        capture.sound(),
        extent.width == 0 || extent.height == 0,
    ensures
        capture.stage is Measuring ==> {
            let next = capture.after(CaptureEvent::Geometry(extent));
            next.error == Some(CaptureError::EmptyGeometry) && next.next()
                == CaptureAction::Nothing
        },
        capture.stage == CaptureStage::Reading ==> {
            let next = capture.after(CaptureEvent::NotDecoded(error));
            &&& next.error == Some(CaptureError::Pixels(error))
            &&& next.next() == (CaptureAction::FreePixmap { pixmap: capture.pixmap->0 })
        },
{
}

/// The pixels are laid out as the image says, or as the window does where the image does not.
pub proof fn law_the_image_tells_its_visual(image: u32, window: u32)
    ensures
        image != 0 ==> image_visual(image, window) == image,
        image_visual(0, window) == window,
{
}

/// A window is among those that a sweep takes: its thumbnail is stale, and where the sweep is
/// over the current workspace alone, it stands there, or nothing is known of where either is.
pub open spec fn is_due(
    window: WindowInfo,
    stale: bool,
    scope: CaptureScope,
    current: Option<Seq<char>>,
) -> bool {
    &&& stale
    &&& scope == CaptureScope::CurrentWorkspaceOnly ==> {
        ||| current is Some && window.workspace@.len() > 0 && window.workspace@ == current->0
        ||| current is None && window.workspace@.len() == 0
    }
}

/// A sweep takes exactly the windows that are due, each once and in their order, and knows their
/// workspaces.
pub proof fn law_sweep_takes_what_is_due(
    windows: Seq<WindowInfo>,
    stale: Seq<bool>,
    scope: CaptureScope,
    current: Option<Seq<char>>,
)
    requires
        windows.len() <= usize::MAX,
    ensures
        ({
            let tasks = tasks_for(windows, stale, scope, current);
            &&& forall|i: int, j: int|
                0 <= i < j < tasks.len() ==> (#[trigger] tasks[i]).index < (
                #[trigger] tasks[j]).index
            &&& forall|i: int|
                0 <= i < tasks.len() ==> {
                    let index = (#[trigger] tasks[i]).index as int;
                    &&& index < windows.len()
                    &&& is_due(windows[index], stale[index], scope, current)
                    &&& tasks[i].workspace@ == windows[index].workspace@
                }
            &&& forall|w: int|
                0 <= w < windows.len() && is_due(#[trigger] windows[w], stale[w], scope, current)
                    ==> exists|i: int| 0 <= i < tasks.len() && (#[trigger] tasks[i]).index == w
        }),
    decreases windows.len(),
{
    if windows.len() > 0 {
        let rest = windows.drop_last();
        law_sweep_takes_what_is_due(rest, stale, scope, current);
        let before = tasks_for(rest, stale, scope, current);
        let tasks = tasks_for(windows, stale, scope, current);
        let last = windows.len() - 1;
        assert forall|w: int| 0 <= w < last implies #[trigger] windows[w] == rest[w] by {}
        assert(in_scope(windows[last], scope, current) && stale[last] <==> is_due(
            windows[last],
            stale[last],
            scope,
            current,
        ));
        assert forall|i: int| 0 <= i < tasks.len() implies {
            let index = (#[trigger] tasks[i]).index as int;
            &&& index < windows.len()
            &&& is_due(windows[index], stale[index], scope, current)
            &&& tasks[i].workspace@ == windows[index].workspace@
        } by {
            if i < before.len() {
                assert(tasks[i] == before[i]);
                assert(rest[before[i].index as int] == windows[before[i].index as int]);
            }
        }
        assert forall|w: int|
            0 <= w < windows.len() && is_due(#[trigger] windows[w], stale[w], scope, current)
            implies exists|i: int| 0 <= i < tasks.len() && (#[trigger] tasks[i]).index == w by {
            if w < last {
                assert(is_due(rest[w], stale[w], scope, current));
                let i = choose|i: int| 0 <= i < before.len() && (#[trigger] before[i]).index == w;
                assert(tasks[i].index == w);
            } else {
                assert(tasks[tasks.len() - 1].index == w);
            }
        }
    }
}

/// A sweep that knows where it came from switches to the workspace of the next window unless it
/// is there, and goes back at the end unless it is back or has come back.
pub proof fn law_sweep_switches_where_it_has_to(sweep: CaptureSweep, task: CaptureTask)
    requires
        sweep.original_workspace is Some,
    ensures
        sweep.active_workspace is None ==> sweep.detour(task) == Some(task.workspace@),
        sweep.active_workspace matches Some(active) ==> if active@ == task.workspace@ {
            sweep.detour(task) is None
        } else {
            sweep.detour(task) == Some(task.workspace@)
        },
        sweep.active_workspace is None && !sweep.restored ==> sweep.owed() == Some(
            sweep.original_workspace->0@,
        ),
        sweep.active_workspace matches Some(active) ==> active@ == sweep.original_workspace->0@
            ==> sweep.owed() is None,
{
}

/// An image within the limit stays as it is. One that is longer is brought down in proportion:
/// its longest edge becomes the limit, and each edge is less than a pixel away from its share of
/// it, but at least one pixel.
pub proof fn law_thumbnails_keep_their_proportions(image: RgbaImage, limit: u32, small: RgbaImage)
    requires
        brought_down(image, limit, small),
        0 < image.width <= 0xffff,
        0 < image.height <= 0xffff,
        0 < limit,
    ensures
        image.width <= limit && image.height <= limit ==> small.width == image.width
            && small.height == image.height && small.pixels@ == image.pixels@,
        image.width > limit || image.height > limit ==> {
            let longest = if image.width > image.height {
                image.width as int
            } else {
                image.height as int
            };
            let across = small.width * longest - image.width * limit;
            let down = small.height * longest - image.height * limit;
            &&& image.width == longest ==> small.width == limit
            &&& image.height == longest ==> small.height == limit
            &&& small.width == 1 || -longest < across < longest
            &&& small.height == 1 || -longest < down < longest
            &&& small.pixels@ == triangle_resized(
                image.width,
                image.height,
                image.pixels@,
                small.width,
                small.height,
            )
        },
{
    let longest = longest_edge(image.width as nat, image.height as nat);
    if longest > limit {
        lemma_edge_in_proportion(image.width as nat, longest, limit as nat);
        lemma_edge_in_proportion(image.height as nat, longest, limit as nat);
    }
}

proof fn lemma_edge_in_proportion(edge: nat, longest: nat, limit: nat)
    requires
        0 < edge <= longest <= 0xffff,
        0 < limit < longest,
    ensures
        ({
            let scaled = scaled_edge(edge, longest, limit);
            &&& scaled == 1 || -longest < scaled * longest - edge * limit < longest
            &&& edge == longest ==> scaled == limit
        }),
{
    assert(edge * limit <= 0x2_0000 * longest) by (nonlinear_arith)
        requires
            edge <= longest,
            0 < limit <= 0xffff,
    ;
    single::law_scaled_by_a_ratio(edge, limit, longest);
    let scale = single::quotient(single::of_int(limit), single::of_int(longest));
    let scaled = single::rounded(single::product(single::of_int(edge), scale));
    if edge == longest {
        assert(scaled == limit) by (nonlinear_arith)
            requires
                -longest < scaled * longest - longest * limit < longest,
                longest > 0,
        ;
    }
}

/// A sweep captures its windows one after the other, from the first; each step takes one off the
/// list, and when none is left it is over, and owes nothing then. A window that is gone is passed
/// over, but its workspace is still switched to.
pub proof fn law_sweep_goes_through_its_tasks(
    sweep: CaptureSweep,
    window_count: usize,
    step: SweepStep,
    next: CaptureSweep,
)
    requires
        sweep.steps_to(window_count, step, next),
    ensures
        sweep.tasks@.len() > 0 ==> {
            &&& step matches SweepStep::Capture { switch, index }
            &&& sweep.tasks@[0].index < window_count ==> index == Some(sweep.tasks@[0].index)
            &&& sweep.tasks@[0].index >= window_count ==> index is None
            &&& switch is Some ==> switch->0@ == sweep.tasks@[0].workspace@
            &&& next.tasks@.len() == sweep.tasks@.len() - 1
            &&& forall|i: int|
                0 <= i < next.tasks@.len() ==> #[trigger] next.tasks@[i] == sweep.tasks@[i + 1]
            &&& next.owed() == sweep.owed()
        },
        sweep.tasks@.len() == 0 ==> {
            &&& step is Finish
            &&& next.tasks@.len() == 0
            &&& next.owed() is None
            &&& sweep.restored ==> step->restore is None
            &&& step->restore is Some ==> sweep.original_workspace is Some && step->restore->0@
                == sweep.original_workspace->0@
        },
{
}

/// Two windows of one workspace in turn take one switch: once the sweep is there, it stays.
pub proof fn law_sweep_switches_once_for_a_workspace(
    sweep: CaptureSweep,
    workspace: String,
    task: CaptureTask,
)
    requires
        task.workspace@ == workspace@,
    ensures
        (CaptureSweep { active_workspace: Some(workspace), ..sweep }).detour(task) is None,
{
}

/// A sweep comes from the current workspace where any window's workspace is known, and is lost
/// where none is.
pub proof fn law_sweep_is_lost_without_workspaces(
    windows: Seq<WindowInfo>,
    current: Option<String>,
    index: int,
)
    ensures
        0 <= index < windows.len() && windows[index].workspace@.len() > 0 ==> origin_of(
            windows,
            current,
        ) == current,
        (forall|i: int| 0 <= i < windows.len() ==> (#[trigger] windows[i]).workspace@.len() == 0)
            ==> origin_of(windows, current) is None,
{
}

/// Each failure of a capture is told in its own words; what is wrong with the pixels is told as
/// they tell it.
pub proof fn law_capture_errors_are_told_in_words(error: CaptureError)
    ensures
        error.spec_message() == (match error {
            CaptureError::Attributes(Fault::Send) => "failed to request window attributes"@,
            CaptureError::Attributes(Fault::Reply) => "failed to read window attributes"@,
            CaptureError::NotViewable => {
                "window did not become viewable after workspace switch"@
            },
            CaptureError::Geometry(Fault::Send) => "failed to request window geometry"@,
            CaptureError::Geometry(Fault::Reply) => "failed to read window geometry"@,
            CaptureError::EmptyGeometry => "window has empty geometry"@,
            CaptureError::Redirect(Fault::Send) => "failed to request XComposite redirect"@,
            CaptureError::Redirect(Fault::Reply) => "XComposite rejected redirect for window"@,
            CaptureError::AllocatePixmap => "failed to allocate capture pixmap id"@,
            CaptureError::NamePixmap(Fault::Send) => "failed to request named window pixmap"@,
            CaptureError::NamePixmap(Fault::Reply) => "XComposite could not name window pixmap"@,
            CaptureError::ReadImage(Fault::Send) => "failed to request XImage"@,
            CaptureError::ReadImage(Fault::Reply) => "failed to receive XImage"@,
            CaptureError::Pixels(error) => error.spec_message(),
        }),
{
}

}
