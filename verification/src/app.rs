//! The overview: which window is selected, what the events do, and what is to be done next.

use vstd::prelude::*;

use crate::capture::{CaptureSweep, SweepStatus};
use crate::input;
use crate::input::{KeyAction, KeyMap};
use crate::layout;
use crate::layout::Layout;
use crate::text;
use crate::windows::WindowInfo;

verus! {

/// The button that picks a window.
pub const PICK_BUTTON: u8 = 1;

/// What a turn of the overview has brought.
#[derive(Debug, Clone, Copy, PartialEq, Eq, Structural)]
pub enum AppTick {
    Idle,
    Closed,
    Focused,
}

/// What happened on the display.
#[derive(Debug, Clone, Copy, PartialEq, Eq, Structural)]
pub enum OverviewEvent {
    Expose,
    Configure { window: u32, width: u16, height: u16 },
    KeyPress { keycode: u8 },
    KeyRelease { keycode: u8 },
    Motion { x: i16, y: i16 },
    ButtonPress { button: u8, x: i16, y: i16 },
    Other,
}

/// What an event asks for.
#[derive(Debug, Clone, Copy, PartialEq, Eq, Structural)]
pub enum Outcome {
    Nothing,
    Redraw,
    /// Take the new size, then redraw.
    Resize { width: u16, height: u16 },
    /// End without changing the focus.
    Close,
    /// End, and focus the window at that place in the list.
    Focus { index: usize },
}

/// The overview.
pub struct OverviewApp {
    pub windows: Vec<WindowInfo>,
    pub keymap: KeyMap,
    /// The window that the overview draws on.
    pub overlay: u32,
    pub selected: usize,
    pub layout: Option<Layout>,
    pub sweep: Option<CaptureSweep>,
    pub visible: bool,
    pub debug: bool,
}

/// The selection one column to the left, in the same row.
pub open spec fn left_of(selected: int, columns: int) -> int {
    if selected % columns > 0 {
        selected - 1
    } else {
        selected
    }
}

/// The selection one column to the right, in the same row.
pub open spec fn right_of(selected: int, columns: int, count: int) -> int {
    if selected + 1 < count && selected % columns + 1 < columns {
        selected + 1
    } else {
        selected
    }
}

/// The selection one row up, in the same column.
pub open spec fn above(selected: int, columns: int) -> int {
    if selected >= columns {
        selected - columns
    } else {
        selected
    }
}

/// The selection one row down: in the same column, or at the last window where the last row is
/// too short for that.
pub open spec fn below(selected: int, columns: int, count: int) -> int {
    if selected + columns < count {
        selected + columns
    } else if selected / columns < (count - 1) / columns {
        count - 1
    } else {
        selected
    }
}

/// The selection after a key.
pub open spec fn moved(action: KeyAction, selected: int, columns: int, count: int) -> int {
    match action {
        KeyAction::Left => left_of(selected, columns),
        KeyAction::Right => right_of(selected, columns, count),
        KeyAction::Up => above(selected, columns),
        KeyAction::Down => below(selected, columns, count),
        _ => selected,
    }
}

impl OverviewApp {
    /// A window is selected.
    pub open spec fn usable(self) -> bool {
        self.selected < self.windows@.len()
    }

    /// The layout is one of the overview's windows.
    pub open spec fn laid_out(self, layout: Layout) -> bool {
        layout.columns >= 1 && layout.items@.len() == self.windows@.len()
    }

    /// What a key does, if it does anything.
    pub open spec fn key(self, keycode: u8) -> Option<KeyAction> {
        match self.keymap.symbols(keycode) {
            None => None,
            Some(symbols) => input::action_of(symbols),
        }
    }

    /// A key is one of the two super keys.
    pub open spec fn is_super(self, keycode: u8) -> bool {
        match self.keymap.symbols(keycode) {
            None => false,
            Some(symbols) => {
                symbols.contains(input::XK_SUPER_L) || symbols.contains(input::XK_SUPER_R)
            },
        }
    }

    /// An event needs a window to be selected: moving down and picking do.
    pub open spec fn needs_window(self, event: OverviewEvent) -> bool {
        match event {
            OverviewEvent::KeyPress { keycode } => {
                self.key(keycode) == Some(KeyAction::Confirm) || self.key(keycode) == Some(
                    KeyAction::Down,
                )
            },
            _ => false,
        }
    }

    /// The selection after an event, and what the event asks for.
    pub open spec fn reaction(self, event: OverviewEvent, layout: Layout) -> (int, Outcome) {
        let here = self.selected as int;
        let count = self.windows@.len() as int;
        match event {
            OverviewEvent::Expose => (here, Outcome::Redraw),
            OverviewEvent::Configure { window, width, height } => {
                if window == self.overlay {
                    (here, Outcome::Resize { width, height })
                } else {
                    (here, Outcome::Nothing)
                }
            },
            OverviewEvent::KeyPress { keycode } => match self.key(keycode) {
                None => (here, Outcome::Nothing),
                Some(KeyAction::Close) => (here, Outcome::Close),
                Some(KeyAction::Confirm) => (here, Outcome::Focus { index: self.selected }),
                Some(action) => {
                    (moved(action, here, layout.columns as int, count), Outcome::Redraw)
                },
            },
            OverviewEvent::KeyRelease { keycode } => {
                if self.is_super(keycode) {
                    (here, Outcome::Close)
                } else {
                    (here, Outcome::Nothing)
                }
            },
            OverviewEvent::Motion { x, y } => match layout::first_hit(layout.items@, x, y) {
                Some(index) => {
                    if index != here {
                        (index as int, Outcome::Redraw)
                    } else {
                        (here, Outcome::Nothing)
                    }
                },
                None => (here, Outcome::Nothing),
            },
            OverviewEvent::ButtonPress { button, x, y } => {
                match layout::first_hit(layout.items@, x, y) {
                    Some(index) if button == PICK_BUTTON => {
                        (index as int, Outcome::Focus { index })
                    },
                    _ => (here, Outcome::Nothing),
                }
            },
            OverviewEvent::Other => (here, Outcome::Nothing),
        }
    }

    /// Nothing was drawn, shown or captured yet, and the first window is selected.
    pub open spec fn is_new(self) -> bool {
        self.selected == 0 && self.layout is None && self.sweep is None && !self.visible
    }

    /// A frame has to be drawn before the overview is shown.
    pub open spec fn needs_frame(self, resized: bool) -> bool {
        resized || self.layout is None
    }

    /// With the layout of a frame that was drawn.
    pub open spec fn with_frame(self, layout: Layout) -> OverviewApp {
        OverviewApp { layout: Some(layout), ..self }
    }

    pub open spec fn on_screen(self) -> OverviewApp {
        OverviewApp { visible: true, ..self }
    }

    /// Off screen, and without a sweep.
    pub open spec fn off_screen(self) -> OverviewApp {
        OverviewApp { sweep: None, visible: false, ..self }
    }

    /// With a sweep, if it has anything to capture, in place of another one.
    pub open spec fn with_sweep(self, sweep: CaptureSweep) -> OverviewApp {
        OverviewApp {
            sweep: if sweep.tasks@.len() > 0 {
                Some(sweep)
            } else {
                None
            },
            ..self
        }
    }

    /// A sweep may begin in the background.
    pub open spec fn may_capture(self) -> bool {
        !self.visible && self.sweep is None
    }

    /// `end` is how the interaction ends with a window that was picked, or with none.
    pub open spec fn ends_with(self, picked: Option<usize>, end: Ending) -> bool {
        match picked {
            None => {
                &&& end.tick == AppTick::Closed
                &&& end.focus is None
                &&& text::option_view(end.restore) == self.owed()
            },
            Some(index) => {
                &&& end.tick == AppTick::Focused
                &&& end.focus == Some(index)
                &&& end.restore is None
            },
        }
    }

    /// What a turn does next.
    pub open spec fn turn(self, event_waits: bool) -> Turn {
        if event_waits {
            Turn::HandleEvent
        } else if self.sweep is Some {
            Turn::StepSweep
        } else {
            Turn::Idle
        }
    }

    /// A frame has to be drawn after a step of the sweep.
    pub open spec fn draws_after(self, status: SweepStatus, background: bool) -> bool {
        status == SweepStatus::Updated || background || self.visible
    }

    /// After a step of the sweep.
    pub open spec fn after_step(self, status: SweepStatus) -> OverviewApp {
        match status {
            SweepStatus::Updated => self,
            SweepStatus::Finished => OverviewApp { sweep: None, ..self },
        }
    }

    /// An overview of the windows that is not shown yet, with the first window selected.
    pub fn new(windows: Vec<WindowInfo>, keymap: KeyMap, overlay: u32, debug: bool) -> (app: Self)
        ensures
            app.windows == windows,
            app.keymap == keymap,
            app.overlay == overlay,
            app.selected == 0,
            app.layout is None,
            app.sweep is None,
            !app.visible,
            app.debug == debug,
            windows@.len() > 0 ==> app.usable(),
            app.is_new(),
    {
        OverviewApp {
            windows,
            keymap,
            overlay,
            selected: 0,
            layout: None,
            sweep: None,
            visible: false,
            debug,
        }
    }

    /// How many windows the overview shows.
    pub fn window_count(&self) -> (count: usize)
        ensures
            count == self.windows@.len(),
    {
        self.windows.len()
    }

    fn move_left(&mut self, columns: usize)
        requires
            old(self).selected == 0 || old(self).usable(),
            columns >= 1,
        ensures
            *final(self) == (OverviewApp {
                selected: left_of(old(self).selected as int, columns as int) as usize,
                ..*old(self)
            }),
            old(self).usable() ==> final(self).usable(),
            final(self).selected == 0 || final(self).usable(),
    {
        assert(self.selected == 0 ==> self.selected % columns == 0) by (nonlinear_arith)
            requires
                columns >= 1,
        ;
        if self.selected % columns > 0 {
            self.selected = self.selected - 1;
        }
    }

    fn move_right(&mut self, columns: usize)
        requires
            old(self).selected == 0 || old(self).usable(),
            columns >= 1,
        ensures
            *final(self) == (OverviewApp {
                selected: right_of(
                    old(self).selected as int,
                    columns as int,
                    old(self).windows@.len() as int,
                ) as usize,
                ..*old(self)
            }),
            old(self).usable() ==> final(self).usable(),
            final(self).selected == 0 || final(self).usable(),
    {
        let count: usize = self.windows.len();
        if self.selected + 1 < count && self.selected % columns + 1 < columns {
            self.selected = self.selected + 1;
        }
    }

    fn move_up(&mut self, columns: usize)
        requires
            old(self).selected == 0 || old(self).usable(),
            columns >= 1,
        ensures
            *final(self) == (OverviewApp {
                selected: above(old(self).selected as int, columns as int) as usize,
                ..*old(self)
            }),
            old(self).usable() ==> final(self).usable(),
            final(self).selected == 0 || final(self).usable(),
    {
        if self.selected >= columns {
            self.selected = self.selected - columns;
        }
    }

    fn move_down(&mut self, columns: usize)
        requires
            old(self).usable(),
            columns >= 1,
        ensures
            *final(self) == (OverviewApp {
                selected: below(
                    old(self).selected as int,
                    columns as int,
                    old(self).windows@.len() as int,
                ) as usize,
                ..*old(self)
            }),
            final(self).usable(),
    {
        let count: usize = self.windows.len();
        if columns < count - self.selected {
            self.selected = self.selected + columns;
        } else if self.selected / columns < (count - 1) / columns {
            self.selected = count - 1;
        }
    }

    /// Takes in an event, under the layout that is shown. Where there is no window, no event may
    /// need one.
    pub fn handle_event(&mut self, event: OverviewEvent, layout: &Layout) -> (outcome: Outcome)
        requires
            old(self).selected == 0 || old(self).usable(),
            old(self).needs_window(event) ==> old(self).usable(),
            old(self).laid_out(*layout),
        ensures
            outcome == old(self).reaction(event, *layout).1,
            *final(self) == (OverviewApp {
                selected: old(self).reaction(event, *layout).0 as usize,
                ..*old(self)
            }),
            old(self).usable() ==> final(self).usable(),
            final(self).selected == 0 || final(self).usable(),
            outcome is Focus ==> outcome->index == final(self).selected && final(self).usable(),
    {
        match event {
            OverviewEvent::Expose => Outcome::Redraw,
            OverviewEvent::Configure { window, width, height } => {
                if window == self.overlay {
                    Outcome::Resize { width, height }
                } else {
                    Outcome::Nothing
                }
            },
            OverviewEvent::KeyPress { keycode } => {
                match self.keymap.action_for_keycode(keycode) {
                    None => Outcome::Nothing,
                    Some(KeyAction::Close) => Outcome::Close,
                    Some(KeyAction::Confirm) => Outcome::Focus { index: self.selected },
                    Some(KeyAction::Left) => {
                        self.move_left(layout.columns);
                        Outcome::Redraw
                    },
                    Some(KeyAction::Right) => {
                        self.move_right(layout.columns);
                        Outcome::Redraw
                    },
                    Some(KeyAction::Up) => {
                        self.move_up(layout.columns);
                        Outcome::Redraw
                    },
                    Some(KeyAction::Down) => {
                        self.move_down(layout.columns);
                        Outcome::Redraw
                    },
                }
            },
            OverviewEvent::KeyRelease { keycode } => {
                if self.keymap.is_super_keycode(keycode) {
                    Outcome::Close
                } else {
                    Outcome::Nothing
                }
            },
            OverviewEvent::Motion { x, y } => match layout::hit_test(layout, x, y) {
                Some(index) => {
                    if index != self.selected {
                        self.selected = index;
                        Outcome::Redraw
                    } else {
                        Outcome::Nothing
                    }
                },
                None => Outcome::Nothing,
            },
            OverviewEvent::ButtonPress { button, x, y } => {
                if button != PICK_BUTTON {
                    return Outcome::Nothing;
                }
                match layout::hit_test(layout, x, y) {
                    Some(index) => {
                        self.selected = index;
                        Outcome::Focus { index }
                    },
                    None => Outcome::Nothing,
                }
            },
            OverviewEvent::Other => Outcome::Nothing,
        }
    }

    /// Whether a frame has to be drawn before the overview is shown.
    pub fn show_prepared(&self, resized: bool) -> (result: bool)
        ensures
            result == (resized || self.layout is None),
            result == self.needs_frame(resized),
    {
        resized || self.layout.is_none()
    }

    /// Keeps the layout of the frame that was drawn.
    pub fn framed(&mut self, layout: Layout)
        ensures
            *final(self) == (OverviewApp { layout: Some(layout), ..*old(self) }),
            *final(self) == old(self).with_frame(layout),
    {
        self.layout = Some(layout);
    }

    /// Notes that the overview is on screen.
    pub fn shown(&mut self)
        ensures
            *final(self) == (OverviewApp { visible: true, ..*old(self) }),
            *final(self) == old(self).on_screen(),
    {
        self.visible = true;
    }

    /// Begins a sweep, if it has anything to capture; another one that was under way is dropped.
    pub fn start_capture(&mut self, sweep: CaptureSweep)
        ensures
            *final(self) == (OverviewApp {
                sweep: if sweep.tasks@.len() > 0 {
                    Some(sweep)
                } else {
                    None
                },
                ..*old(self)
            }),
            *final(self) == old(self).with_sweep(sweep),
    {
        self.sweep = if sweep.is_empty() {
            None
        } else {
            Some(sweep)
        };
    }

    /// Whether a sweep may begin in the background: the overview is not on screen, and no sweep
    /// is under way.
    pub fn start_background_capture(&self) -> (result: bool)
        ensures
            result == (!self.visible && self.sweep is None),
            result == self.may_capture(),
    {
        !self.visible && self.sweep.is_none()
    }

    /// The workspace that the sweep under way has to switch back to, if any.
    pub open spec fn owed(self) -> Option<Seq<char>> {
        match self.sweep {
            Some(sweep) => sweep.owed(),
            None => None,
        }
    }

    /// Takes the overview off screen and breaks off the sweep. The workspace to switch back to
    /// comes back, if there is one.
    pub fn hide_without_focus(&mut self) -> (restore: Option<String>)
        ensures
            text::option_view(restore) == old(self).owed(),
            *final(self) == (OverviewApp { sweep: None, visible: false, ..*old(self) }),
            *final(self) == old(self).off_screen(),
    {
        let mut sweep: Option<CaptureSweep> = None;
        std::mem::swap(&mut self.sweep, &mut sweep);
        self.visible = false;
        match sweep {
            Some(mut active) => active.cancel(),
            None => None,
        }
    }

    /// Ends the interaction: with no window picked, the overview is hidden as by
    /// [`OverviewApp::hide_without_focus`]; else the sweep is dropped where it is, since the
    /// picked window brings its workspace.
    pub fn finish_interaction(&mut self, picked: Option<usize>) -> (end: Ending)
        ensures
            *final(self) == (OverviewApp { sweep: None, visible: false, ..*old(self) }),
            end.focus == picked,
            end.tick == (if picked is None {
                AppTick::Closed
            } else {
                AppTick::Focused
            }),
            text::option_view(end.restore) == (if picked is None {
                old(self).owed()
            } else {
                None
            }),
            old(self).ends_with(picked, end),
            *final(self) == old(self).off_screen(),
    {
        match picked {
            None => {
                let restore: Option<String> = self.hide_without_focus();
                Ending { tick: AppTick::Closed, restore, focus: None }
            },
            Some(index) => {
                self.sweep = None;
                self.visible = false;
                Ending { tick: AppTick::Focused, restore: None, focus: Some(index) }
            },
        }
    }

    /// What a turn without waiting does next: events first, then one step of the sweep.
    pub fn tick_nonblocking(&self, event_waits: bool) -> (turn: Turn)
        ensures
            turn == (if event_waits {
                Turn::HandleEvent
            } else if self.sweep is Some {
                Turn::StepSweep
            } else {
                Turn::Idle
            }),
            turn == self.turn(event_waits),
    {
        if event_waits {
            Turn::HandleEvent
        } else if self.sweep.is_some() {
            Turn::StepSweep
        } else {
            Turn::Idle
        }
    }

    /// What a turn in the background does: one step of the sweep.
    pub fn tick_background(&self) -> (turn: Turn)
        ensures
            turn == (if self.sweep is Some {
                Turn::StepSweep
            } else {
                Turn::Idle
            }),
            turn == self.turn(false),
    {
        if self.sweep.is_some() {
            Turn::StepSweep
        } else {
            Turn::Idle
        }
    }

    /// Takes in a step of the sweep, and says whether a frame has to be drawn: whenever
    /// something changed, and at the end if the overview is on screen or the turn was one in the
    /// background.
    pub fn swept(&mut self, status: SweepStatus, background: bool) -> (draw: bool)
        ensures
            match status {
                SweepStatus::Updated => draw && *final(self) == *old(self),
                SweepStatus::Finished => {
                    &&& draw == (background || old(self).visible)
                    &&& *final(self) == (OverviewApp { sweep: None, ..*old(self) })
                },
            },
            draw == old(self).draws_after(status, background),
            *final(self) == old(self).after_step(status),
    {
        match status {
            SweepStatus::Updated => true,
            SweepStatus::Finished => {
                self.sweep = None;
                background || self.visible
            },
        }
    }
}

/// How an interaction ended.
#[derive(Debug)]
pub struct Ending {
    pub tick: AppTick,
    /// The workspace to switch back to.
    pub restore: Option<String>,
    /// The window to focus.
    pub focus: Option<usize>,
}

/// What a turn does next.
#[derive(Debug, Clone, Copy, PartialEq, Eq, Structural)]
pub enum Turn {
    HandleEvent,
    StepSweep,
    Idle,
}

/// How far a loop over events has come.
#[derive(Debug, Clone, Copy, PartialEq, Eq, Structural)]
pub enum LoopStage {
    /// Drawing a frame before the overview is on screen.
    Preparing,
    /// Bringing the overview on screen.
    Showing,
    /// Drawing a frame.
    Drawing,
    /// Taking the events that wait.
    Polling,
    /// Capturing the next window.
    Stepping,
    /// Waiting for an event.
    Waiting,
    /// Over, with the window to focus, if one was picked.
    Done { picked: Option<usize> },
}

/// The loop that shows the overview once: it takes events as long as there are any, then
/// captures one window and draws what came of it, and waits for an event only when no capture is
/// left. A frame is drawn before the overview comes on screen, and another one when it is there.
pub struct EventLoop {
    pub stage: LoopStage,
    pub sweep: Option<CaptureSweep>,
    /// The workspace to switch back to at the end.
    pub restore: Option<String>,
}

/// What happens to the loop.
pub enum LoopEvent {
    /// A frame was drawn.
    Framed,
    /// The overview came on screen.
    Shown,
    /// No event waits.
    NoEvent,
    /// An event was handled.
    Handled(Outcome),
    /// The sweep has gone on to this one.
    Advanced(CaptureSweep),
    /// A step of the sweep was carried out.
    Swept(SweepStatus),
}

impl EventLoop {
    /// The workspace that the sweep has to switch back to, if any.
    pub open spec fn owed(self) -> Option<Seq<char>> {
        match self.sweep {
            Some(sweep) => sweep.owed(),
            None => None,
        }
    }

    /// The overview is not shown yet, and the sweep has not ended.
    pub open spec fn fresh(self) -> bool {
        self.stage == LoopStage::Preparing && self.sweep is Some && self.restore is None
    }

    /// The loop takes events.
    pub open spec fn listens(self) -> bool {
        self.stage == LoopStage::Polling || self.stage == LoopStage::Waiting
    }

    pub open spec fn at(self, stage: LoopStage) -> EventLoop {
        EventLoop { stage, ..self }
    }

    /// `next` is what the loop becomes through an event. One that does not belong to the stage
    /// changes nothing. Closing breaks the sweep off and owes the way back; picking a window
    /// leaves the sweep where it is.
    pub open spec fn leads_to(self, event: LoopEvent, next: EventLoop) -> bool {
        match (self.stage, event) {
            (LoopStage::Preparing, LoopEvent::Framed) => next == self.at(LoopStage::Showing),
            (LoopStage::Showing, LoopEvent::Shown) => next == self.at(LoopStage::Drawing),
            (LoopStage::Drawing, LoopEvent::Framed) => next == self.at(LoopStage::Polling),
            (LoopStage::Polling, LoopEvent::NoEvent) => {
                next == self.at(
                    if self.sweep is Some {
                        LoopStage::Stepping
                    } else {
                        LoopStage::Waiting
                    },
                )
            },
            (
                LoopStage::Polling | LoopStage::Waiting,
                LoopEvent::Handled(Outcome::Close),
            ) => {
                &&& next.stage == LoopStage::Done { picked: None }
                &&& next.sweep is None
                &&& text::option_view(next.restore) == self.owed()
            },
            (
                LoopStage::Polling | LoopStage::Waiting,
                LoopEvent::Handled(Outcome::Focus { index }),
            ) => next == (EventLoop {
                stage: LoopStage::Done { picked: Some(index) },
                restore: None,
                ..self
            }),
            (LoopStage::Polling | LoopStage::Waiting, LoopEvent::Handled(_)) => {
                next == self.at(LoopStage::Polling)
            },
            (LoopStage::Stepping, LoopEvent::Advanced(sweep)) => {
                next == (EventLoop { sweep: Some(sweep), ..self })
            },
            (LoopStage::Stepping, LoopEvent::Swept(SweepStatus::Updated)) => {
                next == self.at(LoopStage::Drawing)
            },
            (LoopStage::Stepping, LoopEvent::Swept(SweepStatus::Finished)) => {
                next == (EventLoop { stage: LoopStage::Drawing, sweep: None, ..self })
            },
            _ => next == self,
        }
    }

    /// A loop with a sweep that has not begun, of an overview that is not shown yet.
    pub fn new(sweep: CaptureSweep) -> (state: EventLoop)
        ensures
            state.fresh(),
            state.sweep == Some(sweep),
    {
        EventLoop { stage: LoopStage::Preparing, sweep: Some(sweep), restore: None }
    }

    /// A frame was drawn.
    pub fn framed(&mut self)
        ensures
            old(self).leads_to(LoopEvent::Framed, *final(self)),
    {
        self.stage = match self.stage {
            LoopStage::Preparing => LoopStage::Showing,
            LoopStage::Drawing => LoopStage::Polling,
            stage => stage,
        };
    }

    /// The overview came on screen.
    pub fn shown(&mut self)
        ensures
            old(self).leads_to(LoopEvent::Shown, *final(self)),
    {
        if self.stage == LoopStage::Showing {
            self.stage = LoopStage::Drawing;
        }
    }

    /// No event waits.
    pub fn no_event(&mut self)
        ensures
            old(self).leads_to(LoopEvent::NoEvent, *final(self)),
    {
        if self.stage == LoopStage::Polling {
            self.stage = if self.sweep.is_some() {
                LoopStage::Stepping
            } else {
                LoopStage::Waiting
            };
        }
    }

    /// An event was handled.
    pub fn handled(&mut self, outcome: Outcome)
        ensures
            old(self).leads_to(LoopEvent::Handled(outcome), *final(self)),
    {
        if self.stage != LoopStage::Polling && self.stage != LoopStage::Waiting {
            return;
        }
        match outcome {
            Outcome::Close => {
                self.stage = LoopStage::Done { picked: None };
                let mut sweep: Option<CaptureSweep> = None;
                std::mem::swap(&mut self.sweep, &mut sweep);
                self.restore = match sweep {
                    Some(mut active) => active.cancel(),
                    None => None,
                };
            },
            Outcome::Focus { index } => {
                self.stage = LoopStage::Done { picked: Some(index) };
                self.restore = None;
            },
            _ => {
                self.stage = LoopStage::Polling;
            },
        }
    }

    /// A step of the sweep was carried out: a frame is due, whatever the step has brought.
    pub fn swept(&mut self, status: SweepStatus)
        ensures
            old(self).leads_to(LoopEvent::Swept(status), *final(self)),
    {
        if self.stage == LoopStage::Stepping {
            if status == SweepStatus::Finished {
                self.sweep = None;
            }
            self.stage = LoopStage::Drawing;
        }
    }
}

/// `states` are what a loop goes through from its start, one event after the other.
pub open spec fn is_loop_run(states: Seq<EventLoop>, events: Seq<LoopEvent>) -> bool {
    &&& states.len() == events.len() + 1
    &&& states[0].fresh()
    &&& forall|i: int|
        #![trigger events[i]]
        0 <= i < events.len() ==> states[i].leads_to(events[i], states[i + 1])
}

/// In every run the loop waits for an event only when no sweep is left, and steps a sweep only
/// when there is one; as long as it goes on there is nowhere to switch back to.
pub proof fn law_loop_waits_only_without_a_sweep(
    states: Seq<EventLoop>,
    events: Seq<LoopEvent>,
    place: int,
)
    requires
        is_loop_run(states, events),
        0 <= place < states.len(),
    ensures
        states[place].stage == LoopStage::Waiting ==> states[place].sweep is None,
        states[place].stage == LoopStage::Stepping ==> states[place].sweep is Some,
        !(states[place].stage is Done) ==> states[place].restore is None,
    decreases place,
{
    if place > 0 {
        law_loop_waits_only_without_a_sweep(states, events, place - 1);
        assert(states[place - 1].leads_to(events[place - 1], states[place]));
    }
}

/// In every run that ends without a window, an event has closed the overview while the loop took
/// events, and the workspace to switch back to is what the sweep owed then.
pub proof fn law_closing_hands_back_the_way_back(
    states: Seq<EventLoop>,
    events: Seq<LoopEvent>,
    place: int,
) -> (closed: int)
    requires
        is_loop_run(states, events),
        0 <= place < states.len(),
        states[place].stage == (LoopStage::Done { picked: None }),
    ensures
        0 <= closed < place,
        events[closed] == LoopEvent::Handled(Outcome::Close),
        states[closed].listens(),
        text::option_view(states[place].restore) == states[closed].owed(),
        states[place].sweep is None,
    decreases place,
{
    assert(states[place - 1].leads_to(events[place - 1], states[place]));
    if states[place - 1].stage == (LoopStage::Done { picked: None }) {
        law_closing_hands_back_the_way_back(states, events, place - 1)
    } else {
        place - 1
    }
}

/// In every run that ends with a window, an event has picked that window while the loop took
/// events; the sweep is left where it was, and there is nowhere to switch back to.
pub proof fn law_picking_leaves_the_sweep(
    states: Seq<EventLoop>,
    events: Seq<LoopEvent>,
    place: int,
    index: usize,
) -> (picked: int)
    requires
        is_loop_run(states, events),
        0 <= place < states.len(),
        states[place].stage == (LoopStage::Done { picked: Some(index) }),
    ensures
        0 <= picked < place,
        events[picked] == LoopEvent::Handled(Outcome::Focus { index }),
        states[picked].listens(),
        states[place].sweep == states[picked].sweep,
        states[place].restore is None,
    decreases place,
{
    assert(states[place - 1].leads_to(events[place - 1], states[place]));
    if states[place - 1].stage == (LoopStage::Done { picked: Some(index) }) {
        law_picking_leaves_the_sweep(states, events, place - 1, index)
    } else {
        place - 1
    }
}

/// A loop that is over stays so, and each step of a sweep is drawn before the loop goes on.
pub proof fn law_loop_draws_every_step(state: EventLoop, event: LoopEvent, next: EventLoop)
    requires
        state.leads_to(event, next),
    ensures
        state.stage is Done ==> next == state,
        state.stage == LoopStage::Stepping && next.stage != state.stage ==> event is Swept
            && next.stage == LoopStage::Drawing,
        state.stage == LoopStage::Drawing && next.stage != state.stage ==> event
            == LoopEvent::Framed && next.stage == LoopStage::Polling,
{
}

/// Which part of showing the overview went wrong.
#[derive(Debug, Clone, Copy, PartialEq, Eq, Structural)]
pub enum ShowError {
    Loop,
    Hide,
    Focus,
}

/// How far the showing of the overview has come.
#[derive(Debug, Clone, Copy, PartialEq, Eq, Structural)]
pub enum ShowStage {
    /// In the loop over events.
    Looping,
    /// Taking the overview off screen, after a loop that failed or picked a window or neither.
    Hiding { picked: Option<usize>, failed: bool },
    /// Focusing the window that was picked.
    Focusing { index: usize },
    Over,
    Failed(ShowError),
}

/// What came of a part of showing the overview.
#[derive(Debug, Clone, Copy, PartialEq, Eq, Structural)]
pub enum ShowEvent {
    /// The loop ended, with the window that was picked.
    LoopEnded { picked: Option<usize> },
    Done,
    Failed,
}

/// The showing of the overview, once: however the loop ends the overview is taken off screen, and
/// only then is a window focused.
#[derive(Debug, Clone, Copy, PartialEq, Eq, Structural)]
pub struct Showing {
    pub stage: ShowStage,
}

impl Showing {
    /// The stage after an event. One that does not belong to the stage changes nothing.
    pub open spec fn stage_after(self, event: ShowEvent) -> ShowStage {
        match (self.stage, event) {
            (ShowStage::Looping, ShowEvent::LoopEnded { picked }) => {
                ShowStage::Hiding { picked, failed: false }
            },
            (ShowStage::Looping, ShowEvent::Failed) => {
                ShowStage::Hiding { picked: None, failed: true }
            },
            (ShowStage::Hiding { .. }, ShowEvent::Failed) => ShowStage::Failed(ShowError::Hide),
            (ShowStage::Hiding { picked, failed }, ShowEvent::Done) => {
                if failed {
                    ShowStage::Failed(ShowError::Loop)
                } else {
                    match picked {
                        Some(index) => ShowStage::Focusing { index },
                        None => ShowStage::Over,
                    }
                }
            },
            (ShowStage::Focusing { .. }, ShowEvent::Done) => ShowStage::Over,
            (ShowStage::Focusing { .. }, ShowEvent::Failed) => ShowStage::Failed(ShowError::Focus),
            (stage, _) => stage,
        }
    }

    pub open spec fn after(self, event: ShowEvent) -> Showing {
        Showing { stage: self.stage_after(event) }
    }

    /// An overview whose interaction has ended and that has to be taken off screen.
    pub fn ended(picked: Option<usize>) -> (showing: Showing)
        ensures
            showing.stage == (ShowStage::Hiding { picked, failed: false }),
    {
        Showing { stage: ShowStage::Hiding { picked, failed: false } }
    }

    /// Takes in what came of the stage.
    pub fn handle(&mut self, event: ShowEvent)
        ensures
            *final(self) == old(self).after(event),
    {
        self.stage = match (self.stage, event) {
            (ShowStage::Looping, ShowEvent::LoopEnded { picked }) => {
                ShowStage::Hiding { picked, failed: false }
            },
            (ShowStage::Looping, ShowEvent::Failed) => {
                ShowStage::Hiding { picked: None, failed: true }
            },
            (ShowStage::Hiding { .. }, ShowEvent::Failed) => ShowStage::Failed(ShowError::Hide),
            (ShowStage::Hiding { picked, failed }, ShowEvent::Done) => {
                if failed {
                    ShowStage::Failed(ShowError::Loop)
                } else {
                    match picked {
                        Some(index) => ShowStage::Focusing { index },
                        None => ShowStage::Over,
                    }
                }
            },
            (ShowStage::Focusing { .. }, ShowEvent::Done) => ShowStage::Over,
            (ShowStage::Focusing { .. }, ShowEvent::Failed) => ShowStage::Failed(ShowError::Focus),
            (stage, _) => stage,
        };
    }
}

/// Which part of a run went wrong.
#[derive(Debug, Clone, Copy, PartialEq, Eq, Structural)]
pub enum RunError {
    Show,
    Cleanup,
}

/// The error that ends a run, if any.
pub open spec fn run_error(show_failed: bool, cleanup_failed: bool) -> Option<RunError> {
    if show_failed {
        Some(RunError::Show)
    } else if cleanup_failed {
        Some(RunError::Cleanup)
    } else {
        None
    }
}

impl OverviewApp {
    /// Begins to show the overview once.
    pub fn show_once() -> (showing: Showing)
        ensures
            showing.stage == ShowStage::Looping,
    {
        Showing { stage: ShowStage::Looping }
    }

    /// The error that ends a run, if any: one in showing the overview before one in giving back
    /// what it took on the server, which is done either way.
    pub fn run(show_failed: bool, cleanup_failed: bool) -> (error: Option<RunError>)
        ensures
            error == (if show_failed {
                Some(RunError::Show)
            } else if cleanup_failed {
                Some(RunError::Cleanup)
            } else {
                None
            }),
            error == run_error(show_failed, cleanup_failed),
    {
        if show_failed {
            Some(RunError::Show)
        } else if cleanup_failed {
            Some(RunError::Cleanup)
        } else {
            None
        }
    }
}

/// The showing after a run of events.
pub open spec fn showing_after(showing: Showing, events: Seq<ShowEvent>) -> Showing
    decreases events.len(),
{
    if events.len() == 0 {
        showing
    } else {
        showing_after(showing, events.drop_last()).after(events.last())
    }
}

/// A window is focused only when the overview is off screen, and only the one that was picked.
pub proof fn law_focus_follows_hiding(showing: Showing, event: ShowEvent, index: usize)
    requires
        showing.after(event).stage == (ShowStage::Focusing { index }),
    ensures
        showing.stage == (ShowStage::Focusing { index }) || showing.stage == (ShowStage::Hiding {
            picked: Some(index),
            failed: false,
        }) && event == ShowEvent::Done,
{
}

/// After a loop that failed nothing is focused, whatever happens, and the showing does not end
/// well; the loop's error is told, unless the overview could not be taken off screen.
pub proof fn law_failed_loop_focuses_nothing(showing: Showing, events: Seq<ShowEvent>)
    requires
        showing.stage == ShowStage::Looping,
    ensures
        ({
            let stage = showing_after(showing.after(ShowEvent::Failed), events).stage;
            ||| stage == (ShowStage::Hiding { picked: None, failed: true })
            ||| stage == ShowStage::Failed(ShowError::Loop)
            ||| stage == ShowStage::Failed(ShowError::Hide)
        }),
    decreases events.len(),
{
    if events.len() > 0 {
        law_failed_loop_focuses_nothing(showing, events.drop_last());
    }
}

/// Escape ends the overview and focuses nothing, whatever is selected and wherever it is
/// pressed; Enter picks the selected window.
pub proof fn law_keys_end_the_overview(app: OverviewApp, keycode: u8, layout: Layout)
    ensures
        app.key(keycode) == Some(KeyAction::Close) ==> app.reaction(
            OverviewEvent::KeyPress { keycode },
            layout,
        ).1 == Outcome::Close,
        app.key(keycode) == Some(KeyAction::Confirm) ==> app.reaction(
            OverviewEvent::KeyPress { keycode },
            layout,
        ).1 == (Outcome::Focus { index: app.selected }),
{
}

/// A click with the first button picks the window that the pointer was moved to.
pub proof fn law_click_picks_what_hover_selects(
    app: OverviewApp,
    layout: Layout,
    x: i16,
    y: i16,
)
    requires
        layout::first_hit(layout.items@, x, y) is Some,
    ensures
        ({
            let hovered = app.reaction(OverviewEvent::Motion { x, y }, layout).0;
            let clicked = app.reaction(
                OverviewEvent::ButtonPress { button: PICK_BUTTON, x, y },
                layout,
            );
            &&& clicked.0 == hovered
            &&& clicked.1 is Focus
            &&& clicked.1->index == hovered
        }),
{
}

/// No key moves the selection off the windows.
pub proof fn law_moves_stay_on_the_windows(
    action: KeyAction,
    selected: int,
    columns: int,
    count: int,
)
    requires
        0 <= selected < count,
        columns >= 1,
    ensures
        0 <= moved(action, selected, columns, count) < count,
{
    assert(0 <= selected % columns <= selected) by (nonlinear_arith)
        requires
            0 <= selected,
            columns >= 1,
    ;
}

/// Left and right stay in the row, and left undoes a step to the right.
pub proof fn law_sideways_moves_stay_in_the_row(selected: int, columns: int, count: int)
    requires
        0 <= selected < count,
        columns >= 1,
    ensures
        left_of(selected, columns) / columns == selected / columns,
        right_of(selected, columns, count) / columns == selected / columns,
        right_of(selected, columns, count) != selected ==> left_of(
            right_of(selected, columns, count),
            columns,
        ) == selected,
        left_of(selected, columns) != selected ==> right_of(
            left_of(selected, columns),
            columns,
            count,
        ) == selected,
{
    let row = selected / columns;
    let column = selected % columns;
    assert(selected == row * columns + column && 0 <= column < columns) by (nonlinear_arith)
        requires
            columns >= 1,
            row == selected / columns,
            column == selected % columns,
    ;
    if column > 0 {
        lemma_place(selected - 1, columns, row, column - 1);
    }
    if column + 1 < columns {
        lemma_place(selected + 1, columns, row, column + 1);
    }
}

proof fn lemma_place(index: int, columns: int, row: int, column: int)
    requires
        index == row * columns + column,
        0 <= column < columns,
    ensures
        index / columns == row,
        index % columns == column,
{
    vstd::arithmetic::div_mod::lemma_fundamental_div_mod_converse(index, columns, row, column);
}

/// Up stays in the column, and undoes a step down into a row that is long enough. A step down
/// leads into the next row, as long as there is one.
pub proof fn law_vertical_moves_change_the_row_by_one(selected: int, columns: int, count: int)
    requires
        0 <= selected < count,
        columns >= 1,
    ensures
        above(selected, columns) % columns == selected % columns,
        selected >= columns ==> above(selected, columns) / columns == selected / columns - 1,
        selected + columns < count ==> above(below(selected, columns, count), columns) == selected,
        below(selected, columns, count) != selected ==> below(selected, columns, count) / columns
            == selected / columns + 1,
        selected / columns < (count - 1) / columns ==> below(selected, columns, count) != selected,
{
    let row = selected / columns;
    let column = selected % columns;
    assert(selected == row * columns + column && 0 <= column < columns) by (nonlinear_arith)
        requires
            columns >= 1,
            row == selected / columns,
            column == selected % columns,
    ;
    assert((row - 1) * columns == row * columns - columns) by (nonlinear_arith);
    assert((row + 1) * columns == row * columns + columns) by (nonlinear_arith);
    lemma_place(selected - columns, columns, row - 1, column);
    lemma_place(selected + columns, columns, row + 1, column);
    let last = count - 1;
    let last_row = last / columns;
    let last_column = last % columns;
    assert(last == last_row * columns + last_column && 0 <= last_column < columns)
        by (nonlinear_arith)
        requires
            columns >= 1,
            last_row == last / columns,
            last_column == last % columns,
    ;
    if selected + columns >= count && row < last_row {
        assert(last_row == row + 1) by (nonlinear_arith)
            requires
                row < last_row,
                last <= row * columns + column + columns - 1,
                last == last_row * columns + last_column,
                0 <= last_column,
                0 <= column < columns,
        ;
    }
}

/// The arrows move the selection by one place in the grid, if there is a window there: left and
/// right to the column beside it, up to the row above, and down to the row below, where a row
/// that is too short is entered at its end. The other keys do not move it.
pub proof fn law_arrows_move_by_one_place(
    action: KeyAction,
    selected: int,
    columns: int,
    count: int,
)
    requires
        0 <= selected < count,
        columns >= 1,
    ensures
        ({
            let to = moved(action, selected, columns, count);
            let row = selected / columns;
            let column = selected % columns;
            let last_row = (count - 1) / columns;
            match action {
                KeyAction::Left => if column > 0 {
                    to / columns == row && to % columns == column - 1
                } else {
                    to == selected
                },
                KeyAction::Right => if column + 1 < columns && selected + 1 < count {
                    to / columns == row && to % columns == column + 1
                } else {
                    to == selected
                },
                KeyAction::Up => if row > 0 {
                    to / columns == row - 1 && to % columns == column
                } else {
                    to == selected
                },
                KeyAction::Down => if row < last_row {
                    &&& to / columns == row + 1
                    &&& to % columns == column || (to == count - 1 && to % columns < column)
                } else {
                    to == selected
                },
                KeyAction::Close | KeyAction::Confirm => to == selected,
            }
        }),
{
    let row = selected / columns;
    let column = selected % columns;
    let last = count - 1;
    let last_row = last / columns;
    let last_column = last % columns;
    vstd::arithmetic::div_mod::lemma_fundamental_div_mod(selected, columns);
    vstd::arithmetic::div_mod::lemma_fundamental_div_mod(last, columns);
    assert(columns * row == row * columns && columns * last_row == last_row * columns)
        by (nonlinear_arith);
    assert(0 <= column < columns && 0 <= last_column < columns) by (nonlinear_arith)
        requires
            columns >= 1,
            column == selected % columns,
            last_column == last % columns,
    ;
    assert((row - 1) * columns == row * columns - columns) by (nonlinear_arith);
    assert((row + 1) * columns == row * columns + columns) by (nonlinear_arith);
    if column > 0 {
        lemma_place(selected - 1, columns, row, column - 1);
    }
    if column + 1 < columns {
        lemma_place(selected + 1, columns, row, column + 1);
    }
    lemma_place(selected - columns, columns, row - 1, column);
    lemma_place(selected + columns, columns, row + 1, column);
    assert(row > 0 <==> selected >= columns) by (nonlinear_arith)
        requires
            selected == row * columns + column,
            0 <= column < columns,
            selected >= 0,
    ;
    assert(selected + columns < count ==> row < last_row) by (nonlinear_arith)
        requires
            selected == row * columns + column,
            last == count - 1,
            last == last_row * columns + last_column,
            0 <= column,
            0 <= last_column < columns,
    ;
    if selected + columns >= count && row < last_row {
        assert(last_row == row + 1) by (nonlinear_arith)
            requires
                row < last_row,
                last <= row * columns + column + columns - 1,
                last == last_row * columns + last_column,
                0 <= last_column,
                0 <= column < columns,
        ;
    }
}

/// Each event does one thing: uncovering the overlay draws it again, a change of its own size
/// resizes it, a key that moves the selection draws it, letting go of a super key closes it,
/// moving the pointer onto another window selects that, and pressing the first button on a
/// window picks it. Everything else does nothing, and nothing else moves the selection.
pub proof fn law_events_do_one_thing(app: OverviewApp, layout: Layout)
    ensures
        app.reaction(OverviewEvent::Expose, layout) == (app.selected as int, Outcome::Redraw),
        app.reaction(OverviewEvent::Other, layout) == (app.selected as int, Outcome::Nothing),
        forall|window: u32, width: u16, height: u16|
            #[trigger] app.reaction(
                OverviewEvent::Configure { window, width, height },
                layout,
            ) == (app.selected as int, if window == app.overlay {
                Outcome::Resize { width, height }
            } else {
                Outcome::Nothing
            }),
        forall|keycode: u8|
            {
                let reaction = #[trigger] app.reaction(
                    OverviewEvent::KeyPress { keycode },
                    layout,
                );
                match app.key(keycode) {
                    Some(KeyAction::Close) => reaction == (app.selected as int, Outcome::Close),
                    Some(KeyAction::Confirm) => reaction == (
                        app.selected as int,
                        Outcome::Focus { index: app.selected },
                    ),
                    Some(action) => reaction == (
                        moved(
                            action,
                            app.selected as int,
                            layout.columns as int,
                            app.windows@.len() as int,
                        ),
                        Outcome::Redraw,
                    ),
                    None => reaction == (app.selected as int, Outcome::Nothing),
                }
            },
        forall|keycode: u8|
            #[trigger] app.reaction(OverviewEvent::KeyRelease { keycode }, layout) == (
                app.selected as int,
                if app.keymap.symbols(keycode) matches Some(symbols) && (symbols.contains(0xffeb)
                    || symbols.contains(0xffec)) {
                    Outcome::Close
                } else {
                    Outcome::Nothing
                },
            ),
        forall|x: i16, y: i16|
            {
                let reaction = #[trigger] app.reaction(OverviewEvent::Motion { x, y }, layout);
                match layout::first_hit(layout.items@, x, y) {
                    Some(index) => reaction == (index as int, if index == app.selected {
                        Outcome::Nothing
                    } else {
                        Outcome::Redraw
                    }),
                    None => reaction == (app.selected as int, Outcome::Nothing),
                }
            },
        forall|button: u8, x: i16, y: i16|
            {
                let reaction = #[trigger] app.reaction(
                    OverviewEvent::ButtonPress { button, x, y },
                    layout,
                );
                match layout::first_hit(layout.items@, x, y) {
                    Some(index) => if button == 1 {
                        reaction == (index as int, Outcome::Focus { index })
                    } else {
                        reaction == (app.selected as int, Outcome::Nothing)
                    },
                    None => reaction == (app.selected as int, Outcome::Nothing),
                }
            },
{
}

/// The loop goes round: a frame, the overview on screen, another frame, then the events that
/// wait; when none does, a step of the sweep and a frame of what came of it, or a wait where no
/// sweep is left. An event that ends nothing is followed by the next.
pub proof fn law_loop_goes_round(state: EventLoop, next: EventLoop, outcome: Outcome)
    ensures
        state.stage == LoopStage::Preparing && state.leads_to(LoopEvent::Framed, next)
            ==> next.stage == LoopStage::Showing && next.sweep == state.sweep,
        state.stage == LoopStage::Showing && state.leads_to(LoopEvent::Shown, next) ==> next.stage
            == LoopStage::Drawing && next.sweep == state.sweep,
        state.stage == LoopStage::Drawing && state.leads_to(LoopEvent::Framed, next)
            ==> next.stage == LoopStage::Polling && next.sweep == state.sweep,
        state.stage == LoopStage::Polling && state.leads_to(LoopEvent::NoEvent, next) ==> {
            &&& state.sweep is Some ==> next.stage == LoopStage::Stepping
            &&& state.sweep is None ==> next.stage == LoopStage::Waiting
            &&& next.sweep == state.sweep
        },
        state.stage == LoopStage::Stepping && state.leads_to(
            LoopEvent::Swept(SweepStatus::Updated),
            next,
        ) ==> next.stage == LoopStage::Drawing && next.sweep == state.sweep,
        state.stage == LoopStage::Stepping && state.leads_to(
            LoopEvent::Swept(SweepStatus::Finished),
            next,
        ) ==> next.stage == LoopStage::Drawing && next.sweep is None,
        state.listens() && state.leads_to(LoopEvent::Handled(outcome), next) ==> match outcome {
            Outcome::Close => next.stage == (LoopStage::Done { picked: None }) && text::option_view(
                next.restore,
            ) == state.owed(),
            Outcome::Focus { index } => next.stage == (LoopStage::Done { picked: Some(index) }),
            _ => next.stage == LoopStage::Polling && next.sweep == state.sweep,
        },
{
}

/// A loop that ends is followed by taking the overview off screen, and that by focusing the
/// window that was picked, if one was; each that fails is what is told.
pub proof fn law_showing_runs_its_course(showing: Showing, picked: Option<usize>)
    requires
        showing.stage == ShowStage::Looping,
    ensures
        ({
            let ended = showing.after(ShowEvent::LoopEnded { picked });
            let hidden = ended.after(ShowEvent::Done);
            &&& ended.stage == (ShowStage::Hiding { picked, failed: false })
            &&& ended.after(ShowEvent::Failed).stage == ShowStage::Failed(ShowError::Hide)
            &&& match picked {
                Some(index) => {
                    &&& hidden.stage == (ShowStage::Focusing { index })
                    &&& hidden.after(ShowEvent::Done).stage == ShowStage::Over
                    &&& hidden.after(ShowEvent::Failed).stage == ShowStage::Failed(
                        ShowError::Focus,
                    )
                },
                None => hidden.stage == ShowStage::Over,
            }
            &&& showing.after(ShowEvent::Failed).after(ShowEvent::Done).stage
                == ShowStage::Failed(ShowError::Loop)
            &&& showing.after(ShowEvent::Failed).after(ShowEvent::Failed).stage
                == ShowStage::Failed(ShowError::Hide)
        }),
{
}

/// A new overview needs a frame before it is shown and none after that, as long as its size stays
/// what it was. While it is on screen no sweep begins in the background, nor while another is
/// under way.
pub proof fn law_frames_and_sweeps_are_not_repeated(
    app: OverviewApp,
    layout: Layout,
    sweep: CaptureSweep,
)
    ensures
        app.is_new() ==> app.needs_frame(false) && app.may_capture() && app.turn(false)
            == Turn::Idle,
        !app.with_frame(layout).needs_frame(false),
        app.with_frame(layout).needs_frame(true),
        !app.on_screen().may_capture(),
        app.off_screen().may_capture(),
        sweep.tasks@.len() > 0 ==> !app.with_sweep(sweep).may_capture() && app.with_sweep(
            sweep,
        ).sweep == Some(sweep),
        sweep.tasks@.len() == 0 ==> app.with_sweep(sweep).sweep is None,
        ({
            let next = app.on_screen().with_frame(layout).with_sweep(sweep).off_screen();
            &&& next.selected == app.selected
            &&& next.windows == app.windows
            &&& next.layout == Some(layout)
        }),
{
}

/// Events come before the sweep, and the sweep goes on as long as there is one; a step that ends
/// it leaves nothing to do, and is drawn where the overview is on screen or in the background.
pub proof fn law_turns_go_on_until_the_sweep_ends(
    app: OverviewApp,
    status: SweepStatus,
    background: bool,
)
    ensures
        app.turn(true) == Turn::HandleEvent,
        app.turn(false) == Turn::StepSweep <==> app.sweep is Some,
        app.turn(false) == Turn::Idle <==> app.sweep is None,
        app.after_step(SweepStatus::Finished).turn(false) == Turn::Idle,
        app.after_step(SweepStatus::Updated) == app,
        app.draws_after(SweepStatus::Updated, background),
        app.draws_after(SweepStatus::Finished, true),
        app.draws_after(SweepStatus::Finished, false) <==> app.visible,
        app.after_step(status).selected == app.selected && app.after_step(status).visible
            == app.visible && app.after_step(status).layout == app.layout,
{
}

/// Closing switches back to where a sweep came from and focuses nothing; picking a window focuses
/// that one and switches nowhere else.
pub proof fn law_endings_focus_or_go_back(app: OverviewApp, index: usize, end: Ending)
    ensures
        app.ends_with(None, end) ==> {
            &&& end.focus is None
            &&& end.tick == AppTick::Closed
            &&& app.sweep is None ==> end.restore is None
            &&& app.sweep matches Some(sweep) ==> text::option_view(end.restore) == sweep.owed()
        },
        app.ends_with(Some(index), end) ==> {
            &&& end.focus == Some(index)
            &&& end.tick == AppTick::Focused
            &&& end.restore is None
        },
{
}

/// A run fails where showing the overview or giving back what it took does, and what went wrong
/// first is told.
pub proof fn law_first_failure_of_a_run_is_told(cleanup_failed: bool)
    ensures
        run_error(false, false) is None,
        run_error(true, cleanup_failed) == Some(RunError::Show),
        run_error(false, true) == Some(RunError::Cleanup),
{
}

/// A key acts by the symbols that the keyboard gives it, and one that has none does nothing. Only
/// picking and moving down need a window, and any layout that has a column, and a cell for each
/// window, will do.
pub proof fn law_keys_act_by_their_symbols(app: OverviewApp, keycode: u8, layout: Layout)
    ensures
        app.keymap.symbols(keycode) matches Some(symbols) ==> app.key(keycode) == input::action_of(
            symbols,
        ),
        app.keymap.symbols(keycode) is None ==> app.key(keycode) is None && !app.is_super(keycode),
        app.needs_window(OverviewEvent::KeyPress { keycode }) <==> (app.key(keycode) == Some(
            KeyAction::Confirm,
        ) || app.key(keycode) == Some(KeyAction::Down)),
        forall|event: OverviewEvent|
            !(event is KeyPress) ==> !#[trigger] app.needs_window(event),
        layout.columns > 0 && layout.items@.len() == app.windows@.len() ==> app.laid_out(layout),
        app.selected < app.windows@.len() ==> app.usable(),
{
}

}
