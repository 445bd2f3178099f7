//! Setting up the window that covers the screen.

use vstd::prelude::*;

use crate::render;
use crate::render::{Gcs, Overlay, PictVisual, ServerEvent, Shade};
use crate::text;
use crate::windows;
use crate::x11::{Fault, Property, Reply, RootWindow};

verus! {

/// The status of a keyboard grab that was granted.
pub const GRAB_SUCCESS: u8 = 0;

/// The events that the overlay is told of: it was uncovered, a key or a button was pressed, the
/// pointer was moved, the window changed.
pub const OVERLAY_EVENTS: u32 = 0x2_8045;

/// `tobyscope-x11`: the bytes of the overlay's `WM_NAME`.
pub const OVERLAY_NAME: [u8; 13] = [
    0x74, 0x6f, 0x62, 0x79, 0x73, 0x63, 0x6f, 0x70, 0x65, 0x2d, 0x78, 0x31, 0x31,
];

/// The bytes of the overlay's `WM_CLASS`: its name as the instance and again as the class, each
/// closed by a zero. Rules for compositors go by it.
pub const OVERLAY_CLASS: [u8; 28] = [
    0x74, 0x6f, 0x62, 0x79, 0x73, 0x63, 0x6f, 0x70, 0x65, 0x2d, 0x78, 0x31, 0x31, 0, 0x74, 0x6f,
    0x62, 0x79, 0x73, 0x63, 0x6f, 0x70, 0x65, 0x2d, 0x78, 0x31, 0x31, 0,
];

/// `fixed`: the font of all text.
pub const FONT_NAME: [u8; 5] = [0x66, 0x69, 0x78, 0x65, 0x64];

/// The name of a grab's status.
pub open spec fn status_name(status: u8) -> Seq<char> {
    if status == 0 {
        "SUCCESS"@
    } else if status == 1 {
        "ALREADY_GRABBED"@
    } else if status == 2 {
        "INVALID_TIME"@
    } else if status == 3 {
        "NOT_VIEWABLE"@
    } else if status == 4 {
        "FROZEN"@
    } else {
        text::decimal(status as nat)
    }
}

/// The `Debug` form of x11rb's `GrabStatus`: the name of the status in capitals, and the plain
/// number for a status that has none.
#[verifier::external_body]
fn debug_grab_status(status: u8) -> (name: String)
    ensures
        name@ == status_name(status),
{
    format!("{:?}", x11rb::protocol::xproto::GrabStatus::from(status))
}

/// Why the overlay could not be set up.
#[derive(Debug, Clone, Copy, PartialEq, Eq, Structural)]
pub enum OverlayError {
    NoFormat { visual: u32 },
    AllocateWindow,
    CreateWindow(Fault),
    SetClass(Fault),
    SetName(Fault),
    AllocatePicture,
    CreatePicture(Fault),
    AllocateFont,
    OpenFont(Fault),
    AllocateGc,
    CreateGc(Fault),
    MapWindow(Fault),
    Raise,
    Grab(Fault),
    GrabRefused { status: u8 },
    Flush,
}

impl OverlayError {
    /// What went wrong, in words.
    pub open spec fn spec_message(self) -> Seq<char> {
        match self {
            OverlayError::NoFormat { visual } => {
                "no XRender pict format for root visual 0x"@ + text::hex(visual as nat, 8)
            },
            OverlayError::AllocateWindow => "failed to allocate overlay window id"@,
            OverlayError::CreateWindow(Fault::Send) => "failed to create overlay window"@,
            OverlayError::CreateWindow(Fault::Reply) => "X11 rejected overlay window creation"@,
            OverlayError::SetClass(Fault::Send) => "failed to set overlay WM_CLASS"@,
            OverlayError::SetClass(Fault::Reply) => "X11 rejected overlay WM_CLASS"@,
            OverlayError::SetName(Fault::Send) => "failed to set overlay WM_NAME"@,
            OverlayError::SetName(Fault::Reply) => "X11 rejected overlay WM_NAME"@,
            OverlayError::AllocatePicture => "failed to allocate overlay picture"@,
            OverlayError::CreatePicture(Fault::Send) => "failed to create overlay render picture"@,
            OverlayError::CreatePicture(Fault::Reply) => "XRender rejected overlay picture"@,
            OverlayError::AllocateFont => "failed to allocate font id"@,
            OverlayError::OpenFont(Fault::Send) => "failed to open X11 fixed font"@,
            OverlayError::OpenFont(Fault::Reply) => "X11 rejected fixed font"@,
            OverlayError::AllocateGc => "failed to allocate GC id"@,
            OverlayError::CreateGc(Fault::Send) => "failed to create graphics context"@,
            OverlayError::CreateGc(Fault::Reply) => "X11 rejected graphics context"@,
            OverlayError::MapWindow(Fault::Send) => "failed to map overlay"@,
            OverlayError::MapWindow(Fault::Reply) => "X11 rejected overlay map"@,
            OverlayError::Raise => "failed to raise overlay"@,
            OverlayError::Grab(Fault::Send) => "failed to request keyboard grab"@,
            OverlayError::Grab(Fault::Reply) => "failed to receive keyboard grab reply"@,
            OverlayError::GrabRefused { status } => {
                "could not grab keyboard for overview overlay: "@ + status_name(status)
            },
            OverlayError::Flush => "failed to flush overlay setup"@,
        }
    }

    /// What went wrong, in words.
    pub fn message(self) -> (message: String)
        ensures
            message@ == self.spec_message(),
    {
        match self {
            OverlayError::NoFormat { visual } => {
                let mut message: String = "no XRender pict format for root visual 0x".to_owned();
                text::push_hex(&mut message, visual as u64, 8);
                message
            },
            OverlayError::AllocateWindow => "failed to allocate overlay window id".to_owned(),
            OverlayError::CreateWindow(Fault::Send) => "failed to create overlay window".to_owned(),
            OverlayError::CreateWindow(Fault::Reply) => {
                "X11 rejected overlay window creation".to_owned()
            },
            OverlayError::SetClass(Fault::Send) => "failed to set overlay WM_CLASS".to_owned(),
            OverlayError::SetClass(Fault::Reply) => "X11 rejected overlay WM_CLASS".to_owned(),
            OverlayError::SetName(Fault::Send) => "failed to set overlay WM_NAME".to_owned(),
            OverlayError::SetName(Fault::Reply) => "X11 rejected overlay WM_NAME".to_owned(),
            OverlayError::AllocatePicture => "failed to allocate overlay picture".to_owned(),
            OverlayError::CreatePicture(Fault::Send) => {
                "failed to create overlay render picture".to_owned()
            },
            OverlayError::CreatePicture(Fault::Reply) => {
                "XRender rejected overlay picture".to_owned()
            },
            OverlayError::AllocateFont => "failed to allocate font id".to_owned(),
            OverlayError::OpenFont(Fault::Send) => "failed to open X11 fixed font".to_owned(),
            OverlayError::OpenFont(Fault::Reply) => "X11 rejected fixed font".to_owned(),
            OverlayError::AllocateGc => "failed to allocate GC id".to_owned(),
            OverlayError::CreateGc(Fault::Send) => "failed to create graphics context".to_owned(),
            OverlayError::CreateGc(Fault::Reply) => "X11 rejected graphics context".to_owned(),
            OverlayError::MapWindow(Fault::Send) => "failed to map overlay".to_owned(),
            OverlayError::MapWindow(Fault::Reply) => "X11 rejected overlay map".to_owned(),
            OverlayError::Raise => "failed to raise overlay".to_owned(),
            OverlayError::Grab(Fault::Send) => "failed to request keyboard grab".to_owned(),
            OverlayError::Grab(Fault::Reply) => "failed to receive keyboard grab reply".to_owned(),
            OverlayError::GrabRefused { status } => {
                let mut message: String = "could not grab keyboard for overview overlay: ".to_owned();
                message.append(debug_grab_status(status).as_str());
                message
            },
            OverlayError::Flush => "failed to flush overlay setup".to_owned(),
        }
    }
}

/// How far the overlay has come.
#[derive(Debug, Clone, Copy, PartialEq, Eq, Structural)]
pub enum OverlayStage {
    AllocatingWindow,
    CreatingWindow,
    SettingClass,
    SettingName,
    AllocatingPicture,
    CreatingPicture,
    AllocatingFont,
    OpeningFont,
    AllocatingGc(Shade),
    CreatingGc(Shade),
    /// Everything is made, and nothing is on screen yet.
    Prepared,
    Mapping,
    Raising,
    Grabbing,
    Flushing,
    /// The overlay is on screen and has the keyboard.
    Shown,
    Failed(OverlayError),
}

/// What the overlay asks for next.
#[derive(Debug, Clone, Copy, PartialEq, Eq)]
pub enum OverlayAction {
    AllocateId,
    /// Create a window that can be drawn to.
    CreateWindow {
        window: u32,
        parent: u32,
        x: i16,
        y: i16,
        width: u16,
        height: u16,
        border: u16,
        depth: u8,
        visual: u32,
        background_color: u32,
        border_color: u32,
        /// The window manager leaves the window alone.
        override_redirect: bool,
        events: u32,
    },
    SetClass { window: u32, class: [u8; 28] },
    SetName { window: u32, name: [u8; 13] },
    CreatePicture { picture: u32, window: u32, format: u32 },
    OpenFont { font: u32, font_name: [u8; 5] },
    CreateGc {
        gc: u32,
        window: u32,
        foreground: u32,
        background: u32,
        font: u32,
        /// Whether the server tells of what could not be copied.
        graphics_exposures: bool,
    },
    MapWindow { window: u32 },
    /// Put the window above its siblings.
    Raise { window: u32 },
    /// Have all key events sent to the window, and hold none back.
    GrabKeyboard { window: u32 },
    Flush,
    Nothing,
}

/// What came of an action: what the server says, or the status of the keyboard grab.
#[derive(Debug, Clone, Copy, PartialEq, Eq, Structural)]
pub enum OverlayEvent {
    Server(ServerEvent),
    Grabbed { status: u8 },
}

/// The making of the overlay.
#[derive(Debug, Clone, Copy, PartialEq, Eq, Structural)]
pub struct OverlaySetup {
    pub stage: OverlayStage,
    pub format: u32,
    pub root: RootWindow,
    /// What is made so far; numbers that are not allocated yet are zero.
    pub overlay: Overlay,
}

impl OverlaySetup {
    /// Nothing is made yet.
    pub open spec fn fresh(self) -> bool {
        self.stage == OverlayStage::AllocatingWindow
    }

    /// The overlay has the size of the root window.
    pub open spec fn covers_root(self) -> bool {
        self.overlay.width == self.root.width && self.overlay.height == self.root.height
    }

    /// What to ask for.
    pub open spec fn next(self) -> OverlayAction {
        let overlay = self.overlay;
        match self.stage {
            OverlayStage::AllocatingWindow | OverlayStage::AllocatingPicture
            | OverlayStage::AllocatingFont | OverlayStage::AllocatingGc(_) => {
                OverlayAction::AllocateId
            },
            OverlayStage::CreatingWindow => {
                OverlayAction::CreateWindow {
                    window: overlay.window,
                    parent: self.root.window,
                    x: 0,
                    y: 0,
                    width: overlay.width,
                    height: overlay.height,
                    border: 0,
                    depth: self.root.depth,
                    visual: self.root.visual,
                    background_color: render::COLOR_BACKGROUND,
                    border_color: render::COLOR_BACKGROUND,
                    override_redirect: true,
                    events: OVERLAY_EVENTS,
                }
            },
            OverlayStage::SettingClass => {
                OverlayAction::SetClass { window: overlay.window, class: OVERLAY_CLASS }
            },
            OverlayStage::SettingName => {
                OverlayAction::SetName { window: overlay.window, name: OVERLAY_NAME }
            },
            OverlayStage::CreatingPicture => {
                OverlayAction::CreatePicture {
                    picture: overlay.picture,
                    window: overlay.window,
                    format: self.format,
                }
            },
            OverlayStage::OpeningFont => {
                OverlayAction::OpenFont { font: overlay.gcs.font, font_name: FONT_NAME }
            },
            OverlayStage::CreatingGc(shade) => {
                OverlayAction::CreateGc {
                    gc: overlay.gcs.of(shade),
                    window: overlay.window,
                    foreground: shade.spec_colors().0,
                    background: shade.spec_colors().1,
                    font: overlay.gcs.font,
                    graphics_exposures: false,
                }
            },
            OverlayStage::Mapping => OverlayAction::MapWindow { window: overlay.window },
            OverlayStage::Raising => OverlayAction::Raise { window: overlay.window },
            OverlayStage::Grabbing => OverlayAction::GrabKeyboard { window: overlay.window },
            OverlayStage::Flushing => OverlayAction::Flush,
            OverlayStage::Prepared | OverlayStage::Shown | OverlayStage::Failed(_) => {
                OverlayAction::Nothing
            },
        }
    }

    pub open spec fn at(self, stage: OverlayStage) -> OverlaySetup {
        OverlaySetup { stage, ..self }
    }

    pub open spec fn with(self, overlay: Overlay) -> OverlaySetup {
        OverlaySetup { overlay, ..self }
    }

    /// What a failure in a stage is told as.
    pub open spec fn fault(self, fault: Fault) -> OverlayStage {
        match self.stage {
            OverlayStage::AllocatingWindow => OverlayStage::Failed(OverlayError::AllocateWindow),
            OverlayStage::CreatingWindow => OverlayStage::Failed(OverlayError::CreateWindow(fault)),
            OverlayStage::SettingClass => OverlayStage::Failed(OverlayError::SetClass(fault)),
            OverlayStage::SettingName => OverlayStage::Failed(OverlayError::SetName(fault)),
            OverlayStage::AllocatingPicture => OverlayStage::Failed(OverlayError::AllocatePicture),
            OverlayStage::CreatingPicture => {
                OverlayStage::Failed(OverlayError::CreatePicture(fault))
            },
            OverlayStage::AllocatingFont => OverlayStage::Failed(OverlayError::AllocateFont),
            OverlayStage::OpeningFont => OverlayStage::Failed(OverlayError::OpenFont(fault)),
            OverlayStage::AllocatingGc(_) => OverlayStage::Failed(OverlayError::AllocateGc),
            OverlayStage::CreatingGc(_) => OverlayStage::Failed(OverlayError::CreateGc(fault)),
            OverlayStage::Mapping => OverlayStage::Failed(OverlayError::MapWindow(fault)),
            OverlayStage::Raising => OverlayStage::Failed(OverlayError::Raise),
            OverlayStage::Grabbing => OverlayStage::Failed(OverlayError::Grab(fault)),
            OverlayStage::Flushing => OverlayStage::Failed(OverlayError::Flush),
            stage => stage,
        }
    }

    /// After an event. An event that does not answer the action changes nothing.
    pub open spec fn after(self, event: OverlayEvent) -> OverlaySetup {
        let overlay = self.overlay;
        match (self.stage, event) {
            (_, OverlayEvent::Server(ServerEvent::Failed(fault))) => self.at(self.fault(fault)),
            (OverlayStage::AllocatingWindow, OverlayEvent::Server(ServerEvent::Allocated(id))) => {
                self.with(Overlay { window: id, ..overlay }).at(OverlayStage::CreatingWindow)
            },
            (OverlayStage::CreatingWindow, OverlayEvent::Server(ServerEvent::Done)) => {
                self.at(OverlayStage::SettingClass)
            },
            (OverlayStage::SettingClass, OverlayEvent::Server(ServerEvent::Done)) => {
                self.at(OverlayStage::SettingName)
            },
            (OverlayStage::SettingName, OverlayEvent::Server(ServerEvent::Done)) => {
                self.at(OverlayStage::AllocatingPicture)
            },
            (OverlayStage::AllocatingPicture, OverlayEvent::Server(ServerEvent::Allocated(id))) => {
                self.with(Overlay { picture: id, ..overlay }).at(OverlayStage::CreatingPicture)
            },
            (OverlayStage::CreatingPicture, OverlayEvent::Server(ServerEvent::Done)) => {
                self.at(OverlayStage::AllocatingFont)
            },
            (OverlayStage::AllocatingFont, OverlayEvent::Server(ServerEvent::Allocated(id))) => {
                self.with(
                    Overlay { gcs: Gcs { font: id, ..overlay.gcs }, ..overlay },
                ).at(OverlayStage::OpeningFont)
            },
            (OverlayStage::OpeningFont, OverlayEvent::Server(ServerEvent::Done)) => {
                self.at(OverlayStage::AllocatingGc(Shade::Background))
            },
            (
                OverlayStage::AllocatingGc(shade),
                OverlayEvent::Server(ServerEvent::Allocated(id)),
            ) => {
                self.with(
                    Overlay { gcs: overlay.gcs.with(shade, id), ..overlay },
                ).at(OverlayStage::CreatingGc(shade))
            },
            (OverlayStage::CreatingGc(shade), OverlayEvent::Server(ServerEvent::Done)) => {
                match shade.following() {
                    Some(next) => self.at(OverlayStage::AllocatingGc(next)),
                    None => self.at(OverlayStage::Prepared),
                }
            },
            (OverlayStage::Mapping, OverlayEvent::Server(ServerEvent::Done)) => {
                self.at(OverlayStage::Raising)
            },
            (OverlayStage::Raising, OverlayEvent::Server(ServerEvent::Done)) => {
                self.at(OverlayStage::Grabbing)
            },
            (OverlayStage::Grabbing, OverlayEvent::Grabbed { status }) => {
                if status == GRAB_SUCCESS {
                    self.at(OverlayStage::Flushing)
                } else {
                    self.at(OverlayStage::Failed(OverlayError::GrabRefused { status }))
                }
            },
            (OverlayStage::Flushing, OverlayEvent::Server(ServerEvent::Done)) => {
                self.at(OverlayStage::Shown)
            },
            _ => self,
        }
    }

    /// An overlay of the size of the root window, if pictures can show that window's visual.
    pub fn new(
        screens: &Vec<Vec<Vec<PictVisual>>>,
        root: RootWindow,
    ) -> (setup: Result<OverlaySetup, OverlayError>)
        ensures
            match render::format_of(render::visuals_of_screens(screens@), root.visual) {
                Some(format) => {
                    &&& setup is Ok
                    &&& setup->Ok_0.fresh()
                    &&& setup->Ok_0.covers_root()
                    &&& setup->Ok_0.format == format
                    &&& setup->Ok_0.root == root
                },
                None => setup == Err::<OverlaySetup, OverlayError>(
                    OverlayError::NoFormat { visual: root.visual },
                ),
            },
    {
        let width: u16 = root.width;
        let height: u16 = root.height;
        match render::pict_format_for_visual(screens, root.visual) {
            Some(format) => {
                let gcs: Gcs = Gcs {
                    background: 0,
                    cell: 0,
                    cell_hover: 0,
                    border: 0,
                    selected: 0,
                    text: 0,
                    error: 0,
                    font: 0,
                };
                Ok(
                    OverlaySetup {
                        stage: OverlayStage::AllocatingWindow,
                        format,
                        root,
                        overlay: Overlay { window: 0, picture: 0, gcs, width, height },
                    },
                )
            },
            None => Err(OverlayError::NoFormat { visual: root.visual }),
        }
    }

    /// What to ask for.
    pub fn action(&self) -> (action: OverlayAction)
        ensures
            action == self.next(),
    {
        let window: u32 = self.overlay.window;
        match self.stage {
            OverlayStage::AllocatingWindow | OverlayStage::AllocatingPicture
            | OverlayStage::AllocatingFont | OverlayStage::AllocatingGc(_) => {
                OverlayAction::AllocateId
            },
            OverlayStage::CreatingWindow => {
                OverlayAction::CreateWindow {
                    window,
                    parent: self.root.window,
                    x: 0,
                    y: 0,
                    width: self.overlay.width,
                    height: self.overlay.height,
                    border: 0,
                    depth: self.root.depth,
                    visual: self.root.visual,
                    background_color: render::COLOR_BACKGROUND,
                    border_color: render::COLOR_BACKGROUND,
                    override_redirect: true,
                    events: OVERLAY_EVENTS,
                }
            },
            OverlayStage::SettingClass => {
                OverlayAction::SetClass { window, class: OVERLAY_CLASS }
            },
            OverlayStage::SettingName => OverlayAction::SetName { window, name: OVERLAY_NAME },
            OverlayStage::CreatingPicture => {
                OverlayAction::CreatePicture {
                    picture: self.overlay.picture,
                    window,
                    format: self.format,
                }
            },
            OverlayStage::OpeningFont => {
                OverlayAction::OpenFont { font: self.overlay.gcs.font, font_name: FONT_NAME }
            },
            OverlayStage::CreatingGc(shade) => {
                let (foreground, background): (u32, u32) = shade.colors();
                OverlayAction::CreateGc {
                    gc: self.overlay.gcs.get(shade),
                    window,
                    foreground,
                    background,
                    font: self.overlay.gcs.font,
                    graphics_exposures: false,
                }
            },
            OverlayStage::Mapping => OverlayAction::MapWindow { window },
            OverlayStage::Raising => OverlayAction::Raise { window },
            OverlayStage::Grabbing => OverlayAction::GrabKeyboard { window },
            OverlayStage::Flushing => OverlayAction::Flush,
            OverlayStage::Prepared | OverlayStage::Shown | OverlayStage::Failed(_) => {
                OverlayAction::Nothing
            },
        }
    }

    fn fail(&mut self, fault: Fault)
        ensures
            *final(self) == old(self).at(old(self).fault(fault)),
    {
        self.stage = match self.stage {
            OverlayStage::AllocatingWindow => OverlayStage::Failed(OverlayError::AllocateWindow),
            OverlayStage::CreatingWindow => OverlayStage::Failed(OverlayError::CreateWindow(fault)),
            OverlayStage::SettingClass => OverlayStage::Failed(OverlayError::SetClass(fault)),
            OverlayStage::SettingName => OverlayStage::Failed(OverlayError::SetName(fault)),
            OverlayStage::AllocatingPicture => OverlayStage::Failed(OverlayError::AllocatePicture),
            OverlayStage::CreatingPicture => {
                OverlayStage::Failed(OverlayError::CreatePicture(fault))
            },
            OverlayStage::AllocatingFont => OverlayStage::Failed(OverlayError::AllocateFont),
            OverlayStage::OpeningFont => OverlayStage::Failed(OverlayError::OpenFont(fault)),
            OverlayStage::AllocatingGc(_) => OverlayStage::Failed(OverlayError::AllocateGc),
            OverlayStage::CreatingGc(_) => OverlayStage::Failed(OverlayError::CreateGc(fault)),
            OverlayStage::Mapping => OverlayStage::Failed(OverlayError::MapWindow(fault)),
            OverlayStage::Raising => OverlayStage::Failed(OverlayError::Raise),
            OverlayStage::Grabbing => OverlayStage::Failed(OverlayError::Grab(fault)),
            OverlayStage::Flushing => OverlayStage::Failed(OverlayError::Flush),
            stage => stage,
        };
    }

    /// Takes in what came of the action.
    pub fn handle(&mut self, event: OverlayEvent)
        ensures
            *final(self) == old(self).after(event),
    {
        match event {
            OverlayEvent::Server(ServerEvent::Failed(fault)) => {
                self.fail(fault);
            },
            OverlayEvent::Server(ServerEvent::Allocated(id)) => match self.stage {
                OverlayStage::AllocatingWindow => {
                    self.overlay.window = id;
                    self.stage = OverlayStage::CreatingWindow;
                },
                OverlayStage::AllocatingPicture => {
                    self.overlay.picture = id;
                    self.stage = OverlayStage::CreatingPicture;
                },
                OverlayStage::AllocatingFont => {
                    self.overlay.gcs.font = id;
                    self.stage = OverlayStage::OpeningFont;
                },
                OverlayStage::AllocatingGc(shade) => {
                    self.overlay.gcs.put(shade, id);
                    self.stage = OverlayStage::CreatingGc(shade);
                },
                _ => {},
            },
            OverlayEvent::Server(ServerEvent::Done) => {
                self.stage = match self.stage {
                    OverlayStage::CreatingWindow => OverlayStage::SettingClass,
                    OverlayStage::SettingClass => OverlayStage::SettingName,
                    OverlayStage::SettingName => OverlayStage::AllocatingPicture,
                    OverlayStage::CreatingPicture => OverlayStage::AllocatingFont,
                    OverlayStage::OpeningFont => OverlayStage::AllocatingGc(Shade::Background),
                    OverlayStage::CreatingGc(shade) => match shade.next() {
                        Some(next) => OverlayStage::AllocatingGc(next),
                        None => OverlayStage::Prepared,
                    },
                    OverlayStage::Mapping => OverlayStage::Raising,
                    OverlayStage::Raising => OverlayStage::Grabbing,
                    OverlayStage::Flushing => OverlayStage::Shown,
                    stage => stage,
                };
            },
            OverlayEvent::Grabbed { status } => {
                if self.stage == OverlayStage::Grabbing {
                    self.stage = if status == GRAB_SUCCESS {
                        OverlayStage::Flushing
                    } else {
                        OverlayStage::Failed(OverlayError::GrabRefused { status })
                    };
                }
            },
        }
    }

    /// Brings an overlay that is prepared on screen.
    pub fn show(&mut self)
        ensures
            *final(self) == (if old(self).stage == OverlayStage::Prepared {
                old(self).at(OverlayStage::Mapping)
            } else {
                *old(self)
            }),
    {
        if self.stage == OverlayStage::Prepared {
            self.stage = OverlayStage::Mapping;
        }
    }

    /// Notes that an overlay that was on screen is not any more.
    pub fn hidden(&mut self)
        ensures
            *final(self) == (if old(self).stage == OverlayStage::Shown {
                old(self).at(OverlayStage::Prepared)
            } else {
                *old(self)
            }),
    {
        if self.stage == OverlayStage::Shown {
            self.stage = OverlayStage::Prepared;
        }
    }
}

/// The setup after a run of events.
pub open spec fn setup_after(setup: OverlaySetup, events: Seq<OverlayEvent>) -> OverlaySetup
    decreases events.len(),
{
    if events.len() == 0 {
        setup
    } else {
        setup_after(setup, events.drop_last()).after(events.last())
    }
}

/// The overlay is on screen, or about to be.
pub open spec fn coming_up(stage: OverlayStage) -> bool {
    ||| stage == OverlayStage::Mapping
    ||| stage == OverlayStage::Raising
    ||| stage == OverlayStage::Grabbing
    ||| stage == OverlayStage::Flushing
    ||| stage == OverlayStage::Shown
}

/// The overlay covers the screen and is none of the window manager's business: whatever the
/// server answers, the window that is asked for is a child of the root window, at its origin, of
/// its size, without a border and with redirection overridden, and the overlay keeps that size.
pub proof fn law_overlay_covers_the_screen(setup: OverlaySetup, events: Seq<OverlayEvent>)
    requires
        setup.covers_root(),
    ensures
        setup_after(setup, events).covers_root(),
        setup_after(setup, events).root == setup.root,
        match setup_after(setup, events).next() {
            OverlayAction::CreateWindow {
                parent,
                x,
                y,
                width,
                height,
                border,
                override_redirect,
                ..
            } => {
                &&& parent == setup.root.window
                &&& x == 0 && y == 0
                &&& width == setup.root.width && height == setup.root.height
                &&& border == 0
                &&& override_redirect
            },
            _ => true,
        },
    decreases events.len(),
{
    if events.len() > 0 {
        law_overlay_covers_the_screen(setup, events.drop_last());
    }
}

/// The overlay comes on screen in one order: mapped, raised, granted the keyboard, flushed. Each
/// of these is asked for only when the one before it has been done.
pub proof fn law_overlay_comes_up_in_order(setup: OverlaySetup, event: OverlayEvent)
    ensures
        ({
            let before = setup.stage;
            let stage = setup.after(event).stage;
            let done = event == OverlayEvent::Server(ServerEvent::Done);
            &&& stage == OverlayStage::Mapping ==> before == OverlayStage::Mapping
            &&& stage == OverlayStage::Raising && before != stage ==> before
                == OverlayStage::Mapping && done
            &&& stage == OverlayStage::Grabbing && before != stage ==> before
                == OverlayStage::Raising && done
            &&& stage == OverlayStage::Flushing && before != stage ==> before
                == OverlayStage::Grabbing && event == (OverlayEvent::Grabbed {
                status: GRAB_SUCCESS,
            })
            &&& stage == OverlayStage::Shown && before != stage ==> before
                == OverlayStage::Flushing && done
        }),
{
}

/// Whoever reads the overlay's `WM_CLASS` finds `tobyscope-x11` as its instance and as its class.
pub proof fn law_overlay_is_known_by_its_class(property: Property)
    requires
        windows::holds_text(property),
        property.value@ == OVERLAY_CLASS@,
    ensures
        windows::reply_class(Reply::Property(property)) == (
            Some("tobyscope-x11"@),
            Some("tobyscope-x11"@),
        ),
{
    let name = "tobyscope-x11"@;
    reveal_strlit("tobyscope-x11");
    vstd::utf8::is_ascii_chars_encode_utf8(name);
    assert(vstd::utf8::encode_utf8(name) =~= OVERLAY_NAME@);
    assert(OVERLAY_CLASS@ =~= OVERLAY_NAME@.push(0) + OVERLAY_NAME@.push(0));
    assert(!text::is_white_space('t') && !text::is_white_space('1'));
    assert(text::trimmed_start(name) == name);
    assert(text::trimmed(name) == name);
    windows::law_class_reads_back(property, name, name);
}

/// Nothing the server answers brings the overlay on screen: it stays prepared until it is asked
/// to be shown.
pub proof fn law_overlay_waits_to_be_shown(setup: OverlaySetup, events: Seq<OverlayEvent>)
    requires
        setup.fresh(),
    ensures
        !coming_up(setup_after(setup, events).stage),
    decreases events.len(),
{
    if events.len() > 0 {
        law_overlay_waits_to_be_shown(setup, events.drop_last());
    }
}

/// The overlay takes the screen only with the keyboard: a grab that is refused ends the setup,
/// whatever comes after it.
pub proof fn law_refused_grab_ends_the_setup(
    setup: OverlaySetup,
    status: u8,
    event: OverlayEvent,
)
    requires
        setup.stage == OverlayStage::Grabbing,
        status != GRAB_SUCCESS,
    ensures
        setup.after(OverlayEvent::Grabbed { status }).stage == OverlayStage::Failed(
            OverlayError::GrabRefused { status },
        ),
        setup.after(OverlayEvent::Grabbed { status }).after(event).stage == OverlayStage::Failed(
            OverlayError::GrabRefused { status },
        ),
{
}

/// Each number that the server allocates goes to what it was asked for, and to nothing else: the
/// window, then the picture, the font, and a graphics context for each shade.
pub proof fn law_numbers_go_where_they_belong(setup: OverlaySetup, id: u32)
    ensures
        ({
            let next = setup.after(OverlayEvent::Server(ServerEvent::Allocated(id)));
            let before = setup.overlay;
            let after = next.overlay;
            match setup.stage {
                OverlayStage::AllocatingWindow => {
                    &&& next.stage == OverlayStage::CreatingWindow
                    &&& after == (Overlay { window: id, ..before })
                },
                OverlayStage::AllocatingPicture => {
                    &&& next.stage == OverlayStage::CreatingPicture
                    &&& after == (Overlay { picture: id, ..before })
                },
                OverlayStage::AllocatingFont => {
                    &&& next.stage == OverlayStage::OpeningFont
                    &&& after == (Overlay { gcs: Gcs { font: id, ..before.gcs }, ..before })
                },
                OverlayStage::AllocatingGc(shade) => {
                    &&& next.stage == OverlayStage::CreatingGc(shade)
                    &&& after == (Overlay {
                        gcs: match shade {
                            Shade::Background => Gcs { background: id, ..before.gcs },
                            Shade::Cell => Gcs { cell: id, ..before.gcs },
                            Shade::CellHover => Gcs { cell_hover: id, ..before.gcs },
                            Shade::Border => Gcs { border: id, ..before.gcs },
                            Shade::Selected => Gcs { selected: id, ..before.gcs },
                            Shade::Text => Gcs { text: id, ..before.gcs },
                            Shade::Error => Gcs { error: id, ..before.gcs },
                        },
                        ..before
                    })
                },
                _ => next == setup,
            }
        }),
        ({
            let done = setup.after(OverlayEvent::Server(ServerEvent::Done));
            done.overlay == setup.overlay && done.root == setup.root && done.format
                == setup.format
        }),
{
}

/// The overlay is made in one order: the window, its class and name, its picture, the font, and
/// the graphics contexts of the background, the cells, the hovered cell, the borders, the
/// selection, the text and the errors. Then it is prepared.
pub proof fn law_overlay_is_made_in_order(setup: OverlaySetup)
    ensures
        ({
            let stage = setup.after(OverlayEvent::Server(ServerEvent::Done)).stage;
            match setup.stage {
                OverlayStage::CreatingWindow => stage == OverlayStage::SettingClass,
                OverlayStage::SettingClass => stage == OverlayStage::SettingName,
                OverlayStage::SettingName => stage == OverlayStage::AllocatingPicture,
                OverlayStage::CreatingPicture => stage == OverlayStage::AllocatingFont,
                OverlayStage::OpeningFont => stage == OverlayStage::AllocatingGc(
                    Shade::Background,
                ),
                OverlayStage::CreatingGc(Shade::Background) => stage
                    == OverlayStage::AllocatingGc(Shade::Cell),
                OverlayStage::CreatingGc(Shade::Cell) => stage == OverlayStage::AllocatingGc(
                    Shade::CellHover,
                ),
                OverlayStage::CreatingGc(Shade::CellHover) => stage == OverlayStage::AllocatingGc(
                    Shade::Border,
                ),
                OverlayStage::CreatingGc(Shade::Border) => stage == OverlayStage::AllocatingGc(
                    Shade::Selected,
                ),
                OverlayStage::CreatingGc(Shade::Selected) => stage == OverlayStage::AllocatingGc(
                    Shade::Text,
                ),
                OverlayStage::CreatingGc(Shade::Text) => stage == OverlayStage::AllocatingGc(
                    Shade::Error,
                ),
                OverlayStage::CreatingGc(Shade::Error) => stage == OverlayStage::Prepared,
                OverlayStage::Mapping => stage == OverlayStage::Raising,
                OverlayStage::Raising => stage == OverlayStage::Grabbing,
                OverlayStage::Flushing => stage == OverlayStage::Shown,
                _ => stage == setup.stage,
            }
        }),
        setup.stage == OverlayStage::Grabbing ==> setup.after(
            OverlayEvent::Grabbed { status: 0 },
        ).stage == OverlayStage::Flushing,
{
}

/// What is asked of the server is about the overlay's own window: it is of the root window's
/// depth and visual, dark, and told of the events that the overview goes by; each graphics
/// context draws in the color of its shade, text over the background, with the font.
pub proof fn law_overlay_asks_for_its_own(setup: OverlaySetup)
    ensures
        ({
            let overlay = setup.overlay;
            let window = overlay.window;
            match setup.next() {
                OverlayAction::CreateWindow {
                    window: made,
                    depth,
                    visual,
                    background_color,
                    border_color,
                    events,
                    ..
                } => {
                    &&& setup.stage == OverlayStage::CreatingWindow
                    &&& made == window
                    &&& depth == setup.root.depth && visual == setup.root.visual
                    &&& background_color == 0x101418 && border_color == 0x101418
                    &&& events == 0x2_8045
                },
                OverlayAction::SetClass { window: named, .. } => {
                    setup.stage == OverlayStage::SettingClass && named == window
                },
                OverlayAction::SetName { window: named, .. } => {
                    setup.stage == OverlayStage::SettingName && named == window
                },
                OverlayAction::CreatePicture { picture, window: shown, format } => {
                    &&& setup.stage == OverlayStage::CreatingPicture
                    &&& picture == overlay.picture && shown == window && format == setup.format
                },
                OverlayAction::OpenFont { font, .. } => {
                    setup.stage == OverlayStage::OpeningFont && font == overlay.gcs.font
                },
                OverlayAction::CreateGc {
                    gc,
                    window: on,
                    foreground,
                    background,
                    font,
                    graphics_exposures,
                } => {
                    &&& on == window && font == overlay.gcs.font && !graphics_exposures
                    &&& match setup.stage {
                        OverlayStage::CreatingGc(Shade::Background) => gc
                            == overlay.gcs.background && foreground == 0x101418 && background
                            == 0x101418,
                        OverlayStage::CreatingGc(Shade::Cell) => gc == overlay.gcs.cell
                            && foreground == 0x202832 && background == 0x202832,
                        OverlayStage::CreatingGc(Shade::CellHover) => gc
                            == overlay.gcs.cell_hover && foreground == 0x2b3642 && background
                            == 0x2b3642,
                        OverlayStage::CreatingGc(Shade::Border) => gc == overlay.gcs.border
                            && foreground == 0x5f6f7f && background == 0x5f6f7f,
                        OverlayStage::CreatingGc(Shade::Selected) => gc == overlay.gcs.selected
                            && foreground == 0x4ea1ff && background == 0x4ea1ff,
                        OverlayStage::CreatingGc(Shade::Text) => gc == overlay.gcs.text
                            && foreground == 0xe8edf2 && background == 0x101418,
                        OverlayStage::CreatingGc(Shade::Error) => gc == overlay.gcs.error
                            && foreground == 0x66303a && background == 0x66303a,
                        _ => false,
                    }
                },
                OverlayAction::MapWindow { window: mapped } => {
                    setup.stage == OverlayStage::Mapping && mapped == window
                },
                OverlayAction::Raise { window: raised } => {
                    setup.stage == OverlayStage::Raising && raised == window
                },
                OverlayAction::GrabKeyboard { window: listening } => {
                    setup.stage == OverlayStage::Grabbing && listening == window
                },
                OverlayAction::Flush => setup.stage == OverlayStage::Flushing,
                OverlayAction::AllocateId => {
                    ||| setup.stage == OverlayStage::AllocatingWindow
                    ||| setup.stage == OverlayStage::AllocatingPicture
                    ||| setup.stage == OverlayStage::AllocatingFont
                    ||| setup.stage is AllocatingGc
                },
                OverlayAction::Nothing => {
                    ||| setup.stage == OverlayStage::Prepared
                    ||| setup.stage == OverlayStage::Shown
                    ||| setup.stage is Failed
                },
            }
        }),
{
}

/// What goes wrong is told as what was asked for, and nothing is asked for after it.
pub proof fn law_overlay_failures_are_told(setup: OverlaySetup, fault: Fault)
    ensures
        ({
            let next = setup.after(OverlayEvent::Server(ServerEvent::Failed(fault)));
            let error = next.stage->Failed_0;
            &&& !(setup.next() is Nothing) ==> next.stage is Failed && next.next() is Nothing
            &&& match setup.next() {
                OverlayAction::CreateWindow { .. } => error == OverlayError::CreateWindow(fault),
                OverlayAction::SetClass { .. } => error == OverlayError::SetClass(fault),
                OverlayAction::SetName { .. } => error == OverlayError::SetName(fault),
                OverlayAction::CreatePicture { .. } => error == OverlayError::CreatePicture(fault),
                OverlayAction::OpenFont { .. } => error == OverlayError::OpenFont(fault),
                OverlayAction::CreateGc { .. } => error == OverlayError::CreateGc(fault),
                OverlayAction::MapWindow { .. } => error == OverlayError::MapWindow(fault),
                OverlayAction::Raise { .. } => error == OverlayError::Raise,
                OverlayAction::GrabKeyboard { .. } => error == OverlayError::Grab(fault),
                OverlayAction::Flush => error == OverlayError::Flush,
                OverlayAction::AllocateId => match setup.stage {
                    OverlayStage::AllocatingWindow => error == OverlayError::AllocateWindow,
                    OverlayStage::AllocatingPicture => error == OverlayError::AllocatePicture,
                    OverlayStage::AllocatingFont => error == OverlayError::AllocateFont,
                    _ => error == OverlayError::AllocateGc,
                },
                OverlayAction::Nothing => next == setup,
            }
        }),
{
}

/// The overlay is named and classed `tobyscope-x11`, and its text is set in `fixed`.
pub proof fn law_overlay_has_its_name(setup: OverlaySetup)
    ensures
        setup.next() matches OverlayAction::SetName { name, .. } ==> name@
            == vstd::utf8::encode_utf8("tobyscope-x11"@),
        setup.next() matches OverlayAction::SetClass { class, .. } ==> class@
            == vstd::utf8::encode_utf8("tobyscope-x11"@).push(0) + vstd::utf8::encode_utf8(
            "tobyscope-x11"@,
        ).push(0),
        setup.next() matches OverlayAction::OpenFont { font_name, .. } ==> font_name@
            == vstd::utf8::encode_utf8("fixed"@),
{
    reveal_strlit("tobyscope-x11");
    reveal_strlit("fixed");
    vstd::utf8::is_ascii_chars_encode_utf8("tobyscope-x11"@);
    vstd::utf8::is_ascii_chars_encode_utf8("fixed"@);
    assert(vstd::utf8::encode_utf8("tobyscope-x11"@) =~= OVERLAY_NAME@);
    assert(OVERLAY_CLASS@ =~= OVERLAY_NAME@.push(0) + OVERLAY_NAME@.push(0));
    assert(vstd::utf8::encode_utf8("fixed"@) =~= FONT_NAME@);
}

/// Each failure of the overlay is told in its own words: a request that could not be sent, one
/// that the server refused, a number that it did not hand out, a keyboard that is taken.
pub proof fn law_overlay_errors_are_told_in_words(error: OverlayError)
    ensures
        error.spec_message() == (match error {
            OverlayError::NoFormat { visual } => {
                "no XRender pict format for root visual 0x"@ + text::hex(visual as nat, 8)
            },
            OverlayError::AllocateWindow => "failed to allocate overlay window id"@,
            OverlayError::CreateWindow(Fault::Send) => "failed to create overlay window"@,
            OverlayError::CreateWindow(Fault::Reply) => "X11 rejected overlay window creation"@,
            OverlayError::SetClass(Fault::Send) => "failed to set overlay WM_CLASS"@,
            OverlayError::SetClass(Fault::Reply) => "X11 rejected overlay WM_CLASS"@,
            OverlayError::SetName(Fault::Send) => "failed to set overlay WM_NAME"@,
            OverlayError::SetName(Fault::Reply) => "X11 rejected overlay WM_NAME"@,
            OverlayError::AllocatePicture => "failed to allocate overlay picture"@,
            OverlayError::CreatePicture(Fault::Send) => "failed to create overlay render picture"@,
            OverlayError::CreatePicture(Fault::Reply) => "XRender rejected overlay picture"@,
            OverlayError::AllocateFont => "failed to allocate font id"@,
            OverlayError::OpenFont(Fault::Send) => "failed to open X11 fixed font"@,
            OverlayError::OpenFont(Fault::Reply) => "X11 rejected fixed font"@,
            OverlayError::AllocateGc => "failed to allocate GC id"@,
            OverlayError::CreateGc(Fault::Send) => "failed to create graphics context"@,
            OverlayError::CreateGc(Fault::Reply) => "X11 rejected graphics context"@,
            OverlayError::MapWindow(Fault::Send) => "failed to map overlay"@,
            OverlayError::MapWindow(Fault::Reply) => "X11 rejected overlay map"@,
            OverlayError::Raise => "failed to raise overlay"@,
            OverlayError::Grab(Fault::Send) => "failed to request keyboard grab"@,
            OverlayError::Grab(Fault::Reply) => "failed to receive keyboard grab reply"@,
            OverlayError::GrabRefused { status } => {
                "could not grab keyboard for overview overlay: "@ + status_name(status)
            },
            OverlayError::Flush => "failed to flush overlay setup"@,
        }),
{
}

}
