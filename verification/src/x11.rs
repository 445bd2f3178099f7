//! What the X server says, as plain values.

use vstd::prelude::*;

verus! {

/// How a request to the server went wrong.
#[derive(Debug, Clone, Copy, PartialEq, Eq, Structural)]
pub enum Fault {
    /// The request could not be sent.
    Send,
    /// The server refused the request, or its answer did not come.
    Reply,
}

/// What the server says of a window's attributes.
#[derive(Debug, Clone, Copy, PartialEq, Eq, Structural)]
pub struct WindowAttributes {
    /// The window manager leaves the window alone.
    pub override_redirect: bool,
    /// The window and all its ancestors are mapped.
    pub viewable: bool,
    /// The window can be drawn to.
    pub input_output: bool,
    pub visual: u32,
}

/// What the server says of a window's place and size.
#[derive(Debug, Clone, Copy, PartialEq, Eq, Structural)]
pub struct Extent {
    pub x: i16,
    pub y: i16,
    pub width: u16,
    pub height: u16,
    pub depth: u8,
}

impl Extent {
    /// No pixel lies inside.
    pub open spec fn is_empty(self) -> bool {
        self.width == 0 || self.height == 0
    }
}

/// The root window of a screen.
#[derive(Debug, Clone, Copy, PartialEq, Eq, Structural)]
pub struct RootWindow {
    pub window: u32,
    pub visual: u32,
    pub depth: u8,
    pub width: u16,
    pub height: u16,
}

/// A property of a window: the atom of its type, the bits of one item, and the bytes.
#[derive(Debug)]
pub struct Property {
    pub kind: u32,
    pub format: u8,
    pub value: Vec<u8>,
}

/// A question about a window.
#[derive(Debug, Clone, Copy, PartialEq, Eq, Structural)]
pub enum Question {
    Attributes { window: u32 },
    Geometry { window: u32 },
    /// Where the window's origin stands on another window.
    Position { window: u32, destination: u32 },
    /// A property of a type, from its start, and no more of it than `length` units of four bytes.
    Property { window: u32, property: u32, kind: u32, length: u32 },
}

/// How much of a name or a class is read, in units of four bytes.
pub const TEXT_LENGTH: u32 = 1024;

/// The server keeps drawing a window that is redirected.
pub const REDIRECT_AUTOMATIC: u8 = 0;

/// What came back for a question about a window.
#[derive(Debug)]
pub enum Reply {
    Attributes(WindowAttributes),
    Geometry(Extent),
    /// The window's origin on the root window.
    Position { same_screen: bool, x: i16, y: i16 },
    Property(Property),
    /// The question could not be asked or was not answered.
    Failed,
}

/// Checks that there is a display to connect to: `display` is what the environment names as one.
pub fn require_display(display: Option<String>) -> (result: Result<(), &'static str>)
    ensures
        (result is Ok) == (display is Some),
        result is Err ==> result->Err_0@
            == "DISPLAY is not set. tobyscope-x11 only works inside a Linux X11 session, not pure Wayland/headless mode."@,
{
    match display {
        Some(_) => Ok(()),
        None => Err(
            "DISPLAY is not set. tobyscope-x11 only works inside a Linux X11 session, not pure Wayland/headless mode.",
        ),
    }
}

/// What to tell the user about an extension that the server does not have, if it does not.
pub open spec fn extension_refusal(name: Seq<char>, present: bool) -> Option<Seq<char>> {
    if present {
        None
    } else {
        Some("required X11 extension `"@ + name + "` is not available on this display"@)
    }
}

fn refusal(name: &str) -> (message: String)
    ensures
        extension_refusal(name@, false) == Some(message@),
{
    let mut message: String = "required X11 extension `".to_owned();
    message.append(name);
    message.append("` is not available on this display");
    message
}

/// Checks that the server has the extension `name`.
pub fn require_extension(name: &str, present: bool) -> (result: Result<(), String>)
    ensures
        match extension_refusal(name@, present) {
            None => result is Ok,
            Some(message) => result is Err && result->Err_0@ == message,
        },
{
    if present {
        Ok(())
    } else {
        Err(refusal(name))
    }
}

/// An extension of the server that the overview works with.
#[derive(Debug, Clone, Copy, PartialEq, Eq, Structural)]
pub enum Extension {
    Composite,
    Render,
}

impl Extension {
    /// The name that the server knows the extension by.
    pub open spec fn spec_name(self) -> Seq<char> {
        match self {
            Extension::Composite => "Composite"@,
            Extension::Render => "RENDER"@,
        }
    }

    /// The name that the server knows the extension by.
    pub fn name(self) -> (name: &'static str)
        ensures
            name@ == self.spec_name(),
    {
        match self {
            Extension::Composite => "Composite",
            Extension::Render => "RENDER",
        }
    }

    /// The name that users know the extension by.
    pub open spec fn spec_title(self) -> Seq<char> {
        match self {
            Extension::Composite => "XComposite"@,
            Extension::Render => "XRender"@,
        }
    }

    fn title(self) -> (title: &'static str)
        ensures
            title@ == self.spec_title(),
    {
        match self {
            Extension::Composite => "XComposite",
            Extension::Render => "XRender",
        }
    }

    /// The version that the server is told, major and minor.
    pub open spec fn version(self) -> (u32, u32) {
        match self {
            Extension::Composite => (0, 4),
            Extension::Render => (0, 11),
        }
    }
}

/// Why the overview cannot work on a display.
#[derive(Debug, Clone, Copy, PartialEq, Eq, Structural)]
pub enum ExtensionError {
    Inspect(Extension),
    Missing(Extension),
    Query(Extension, Fault),
}

impl ExtensionError {
    /// What went wrong, in words.
    pub open spec fn spec_message(self) -> Seq<char> {
        match self {
            ExtensionError::Inspect(extension) => {
                "failed to inspect X11 extension `"@ + extension.spec_name() + "`"@
            },
            ExtensionError::Missing(extension) => {
                extension_refusal(extension.spec_name(), false)->0
            },
            ExtensionError::Query(extension, Fault::Send) => {
                "failed to query "@ + extension.spec_title() + " version"@
            },
            ExtensionError::Query(extension, Fault::Reply) => {
                extension.spec_title() + " version query failed"@
            },
        }
    }

    /// What went wrong, in words.
    pub fn message(self) -> (message: String)
        ensures
            message@ == self.spec_message(),
    {
        match self {
            ExtensionError::Inspect(extension) => {
                let mut message: String = "failed to inspect X11 extension `".to_owned();
                message.append(extension.name());
                message.append("`");
                message
            },
            ExtensionError::Missing(extension) => refusal(extension.name()),
            ExtensionError::Query(extension, Fault::Send) => {
                let mut message: String = "failed to query ".to_owned();
                message.append(extension.title());
                message.append(" version");
                message
            },
            ExtensionError::Query(extension, Fault::Reply) => {
                let mut message: String = extension.title().to_owned();
                message.append(" version query failed");
                message
            },
        }
    }
}

/// How far the check of the extensions has come.
#[derive(Debug, Clone, Copy, PartialEq, Eq, Structural)]
pub enum ExtensionStage {
    Inspecting(Extension),
    Querying(Extension),
    /// Both extensions are there, and both have told their version.
    Ready,
    Failed(ExtensionError),
}

/// What the check asks for next.
#[derive(Debug, Clone, Copy, PartialEq, Eq, Structural)]
pub enum ExtensionAction {
    /// Ask whether the server has the extension.
    Inspect { extension: Extension },
    /// Tell the server a version of the extension, and ask for its own.
    QueryVersion { extension: Extension, major: u32, minor: u32 },
    Nothing,
}

/// What came of an action.
#[derive(Debug, Clone, Copy, PartialEq, Eq, Structural)]
pub enum ExtensionAnswer {
    /// Whether the server has the extension.
    Present(bool),
    /// The server told its version.
    Version,
    Failed(Fault),
}

/// The check that the server has what the overview works with: both extensions have to be there,
/// and each has to answer for its version.
#[derive(Debug, Clone, Copy, PartialEq, Eq, Structural)]
pub struct ExtensionCheck {
    pub stage: ExtensionStage,
}

impl ExtensionCheck {
    /// What to ask for.
    pub open spec fn next(self) -> ExtensionAction {
        match self.stage {
            ExtensionStage::Inspecting(extension) => ExtensionAction::Inspect { extension },
            ExtensionStage::Querying(extension) => {
                let (major, minor) = extension.version();
                ExtensionAction::QueryVersion { extension, major, minor }
            },
            ExtensionStage::Ready | ExtensionStage::Failed(_) => ExtensionAction::Nothing,
        }
    }

    /// The stage after an answer. One that does not answer the action changes nothing.
    pub open spec fn stage_after(self, answer: ExtensionAnswer) -> ExtensionStage {
        match (self.stage, answer) {
            (ExtensionStage::Inspecting(extension), ExtensionAnswer::Present(present)) => {
                if !present {
                    ExtensionStage::Failed(ExtensionError::Missing(extension))
                } else if extension == Extension::Composite {
                    ExtensionStage::Inspecting(Extension::Render)
                } else {
                    ExtensionStage::Querying(Extension::Composite)
                }
            },
            (ExtensionStage::Inspecting(extension), ExtensionAnswer::Failed(_)) => {
                ExtensionStage::Failed(ExtensionError::Inspect(extension))
            },
            (ExtensionStage::Querying(Extension::Composite), ExtensionAnswer::Version) => {
                ExtensionStage::Querying(Extension::Render)
            },
            (ExtensionStage::Querying(Extension::Render), ExtensionAnswer::Version) => {
                ExtensionStage::Ready
            },
            (ExtensionStage::Querying(extension), ExtensionAnswer::Failed(fault)) => {
                ExtensionStage::Failed(ExtensionError::Query(extension, fault))
            },
            (stage, _) => stage,
        }
    }

    pub open spec fn after(self, answer: ExtensionAnswer) -> ExtensionCheck {
        ExtensionCheck { stage: self.stage_after(answer) }
    }

    /// What to ask for.
    pub fn action(&self) -> (action: ExtensionAction)
        ensures
            action == self.next(),
    {
        match self.stage {
            ExtensionStage::Inspecting(extension) => ExtensionAction::Inspect { extension },
            ExtensionStage::Querying(Extension::Composite) => {
                ExtensionAction::QueryVersion {
                    extension: Extension::Composite,
                    major: 0,
                    minor: 4,
                }
            },
            ExtensionStage::Querying(Extension::Render) => {
                ExtensionAction::QueryVersion { extension: Extension::Render, major: 0, minor: 11 }
            },
            ExtensionStage::Ready | ExtensionStage::Failed(_) => ExtensionAction::Nothing,
        }
    }

    /// Takes in what came of the action.
    pub fn handle(&mut self, answer: ExtensionAnswer)
        ensures
            *final(self) == old(self).after(answer),
    {
        self.stage = match (self.stage, answer) {
            (ExtensionStage::Inspecting(extension), ExtensionAnswer::Present(present)) => {
                if !present {
                    ExtensionStage::Failed(ExtensionError::Missing(extension))
                } else if extension == Extension::Composite {
                    ExtensionStage::Inspecting(Extension::Render)
                } else {
                    ExtensionStage::Querying(Extension::Composite)
                }
            },
            (ExtensionStage::Inspecting(extension), ExtensionAnswer::Failed(_)) => {
                ExtensionStage::Failed(ExtensionError::Inspect(extension))
            },
            (ExtensionStage::Querying(Extension::Composite), ExtensionAnswer::Version) => {
                ExtensionStage::Querying(Extension::Render)
            },
            (ExtensionStage::Querying(Extension::Render), ExtensionAnswer::Version) => {
                ExtensionStage::Ready
            },
            (ExtensionStage::Querying(extension), ExtensionAnswer::Failed(fault)) => {
                ExtensionStage::Failed(ExtensionError::Query(extension, fault))
            },
            (stage, _) => stage,
        };
    }
}

/// Begins to check the extensions, with Composite.
pub fn require_extensions() -> (check: ExtensionCheck)
    ensures
        check == (ExtensionCheck { stage: ExtensionStage::Inspecting(Extension::Composite) }),
{
    ExtensionCheck { stage: ExtensionStage::Inspecting(Extension::Composite) }
}

/// A display is ready exactly where Composite and Render are there and both answer for their
/// versions, asked for in that order; an extension that is not there ends the check.
pub proof fn law_every_extension_is_required(
    check: ExtensionCheck,
    composite: ExtensionAnswer,
    render: ExtensionAnswer,
    composite_version: ExtensionAnswer,
    render_version: ExtensionAnswer,
)
    requires
        check.stage == ExtensionStage::Inspecting(Extension::Composite),
    ensures
        check.after(composite).after(render).after(composite_version).after(render_version).stage
            == ExtensionStage::Ready <==> {
            &&& composite == ExtensionAnswer::Present(true)
            &&& render == ExtensionAnswer::Present(true)
            &&& composite_version == ExtensionAnswer::Version
            &&& render_version == ExtensionAnswer::Version
        },
        composite == ExtensionAnswer::Present(false) ==> check.after(composite).after(
            render,
        ).stage == ExtensionStage::Failed(ExtensionError::Missing(Extension::Composite)),
        composite == ExtensionAnswer::Present(true) && render == ExtensionAnswer::Present(false)
            ==> check.after(composite).after(render).after(composite_version).stage
            == ExtensionStage::Failed(ExtensionError::Missing(Extension::Render)),
{
}

/// The check looks for both extensions before it asks either for its version, Composite first
/// each time, and tells the server the versions 0.4 and 0.11.
pub proof fn law_extensions_are_asked_in_order(check: ExtensionCheck)
    requires
        check.stage == ExtensionStage::Inspecting(Extension::Composite),
    ensures
        ({
            let second = check.after(ExtensionAnswer::Present(true));
            let third = second.after(ExtensionAnswer::Present(true));
            let fourth = third.after(ExtensionAnswer::Version);
            let over = fourth.after(ExtensionAnswer::Version);
            &&& check.next() == (ExtensionAction::Inspect { extension: Extension::Composite })
            &&& second.next() == (ExtensionAction::Inspect { extension: Extension::Render })
            &&& third.next() == (ExtensionAction::QueryVersion {
                extension: Extension::Composite,
                major: 0,
                minor: 4,
            })
            &&& fourth.next() == (ExtensionAction::QueryVersion {
                extension: Extension::Render,
                major: 0,
                minor: 11,
            })
            &&& over.next() == ExtensionAction::Nothing
        }),
{
}

/// What cannot be asked, or is not answered, ends the check with an error about the extension in
/// question, and the server knows the extensions by these names.
pub proof fn law_extension_failures_are_told(extension: Extension, fault: Fault)
    ensures
        (ExtensionCheck { stage: ExtensionStage::Inspecting(extension) }).after(
            ExtensionAnswer::Failed(fault),
        ).stage == ExtensionStage::Failed(ExtensionError::Inspect(extension)),
        (ExtensionCheck { stage: ExtensionStage::Querying(extension) }).after(
            ExtensionAnswer::Failed(fault),
        ).stage == ExtensionStage::Failed(ExtensionError::Query(extension, fault)),
        Extension::Composite.spec_name() == "Composite"@,
        Extension::Render.spec_name() == "RENDER"@,
        extension_refusal(extension.spec_name(), true) is None,
        ExtensionError::Missing(extension).spec_message() == "required X11 extension `"@
            + extension.spec_name() + "` is not available on this display"@,
{
}

/// What is asked for the extensions' versions is told by the names that users know them by.
pub proof fn law_version_errors_use_the_users_names()
    ensures
        ExtensionError::Query(Extension::Composite, Fault::Send).spec_message()
            == "failed to query XComposite version"@,
        ExtensionError::Query(Extension::Render, Fault::Send).spec_message()
            == "failed to query XRender version"@,
        ExtensionError::Query(Extension::Composite, Fault::Reply).spec_message()
            == "XComposite version query failed"@,
        ExtensionError::Query(Extension::Render, Fault::Reply).spec_message()
            == "XRender version query failed"@,
        ExtensionError::Inspect(Extension::Composite).spec_message()
            == "failed to inspect X11 extension `Composite`"@,
        ExtensionError::Inspect(Extension::Render).spec_message()
            == "failed to inspect X11 extension `RENDER`"@,
{
    reveal_strlit("failed to query ");
    reveal_strlit("XComposite");
    reveal_strlit("XRender");
    reveal_strlit(" version");
    reveal_strlit(" version query failed");
    reveal_strlit("failed to inspect X11 extension `");
    reveal_strlit("`");
    reveal_strlit("Composite");
    reveal_strlit("RENDER");
    reveal_strlit("failed to query XComposite version");
    reveal_strlit("failed to query XRender version");
    reveal_strlit("XComposite version query failed");
    reveal_strlit("XRender version query failed");
    reveal_strlit("failed to inspect X11 extension `Composite`");
    reveal_strlit("failed to inspect X11 extension `RENDER`");
}

}
