//! The interface between the window manager and applications.

use super::dialog::{Dialog, DialogState};
use super::geom::Rect;
use crate::input::KeyEvent;
use vstd::prelude::*;

verus! {

pub type WindowId = u32;

#[derive(Debug)]
pub enum Msg {
    /// Result of a dialog: `None` when cancelled.
    DialogResult { tag: u32, value: Option<String> },
    /// Whether a requested screen mode could be set.
    ResolutionResult(bool),
}

/// What a message says.
pub enum MsgState {
    DialogResult { tag: u32, value: Option<Seq<char>> },
    ResolutionResult(bool),
}

/// The text that an optional string holds.
pub open spec fn opt_text(o: Option<String>) -> Option<Seq<char>> {
    match o {
        Some(s) => Some(s@),
        None => None,
    }
}

impl View for Msg {
    type V = MsgState;

    open spec fn view(&self) -> MsgState {
        match *self {
            Msg::DialogResult { tag, value } => MsgState::DialogResult { tag, value: opt_text(value) },
            Msg::ResolutionResult(ok) => MsgState::ResolutionResult(ok),
        }
    }
}

#[derive(Debug)]
pub enum AppEvent {
    MouseDown { x: i32, y: i32, button: u8, clicks: u8 },
    MouseUp { x: i32, y: i32, button: u8 },
    MouseMove { x: i32, y: i32, buttons: u8 },
    MouseLeave,
    Wheel { x: i32, y: i32, delta: i32 },
    Key(KeyEvent),
    Resized { w: i32, h: i32 },
    Focus(bool),
    Message(Msg),
}

/// A window that an application asks for.
pub enum NewWindow {
    Dialog(Dialog),
    /// A folder in the file explorer.
    Explorer(String),
    /// A file in the text editor.
    Editor(String),
    /// A terminal in a folder, running a command line.
    Terminal { dir: String, command: String },
}

pub enum NewWindowState {
    Dialog(DialogState),
    Explorer(Seq<char>),
    Editor(Seq<char>),
    Terminal { dir: Seq<char>, command: Seq<char> },
}

impl View for NewWindow {
    type V = NewWindowState;

    open spec fn view(&self) -> NewWindowState {
        match *self {
            NewWindow::Dialog(d) => NewWindowState::Dialog(d@),
            NewWindow::Explorer(p) => NewWindowState::Explorer(p@),
            NewWindow::Editor(p) => NewWindowState::Editor(p@),
            NewWindow::Terminal { dir, command } => NewWindowState::Terminal { dir: dir@, command: command@ },
        }
    }
}

/// What an application asks of the window manager.
pub enum Command {
    Open(NewWindow),
    /// Open a window centred over the sender.
    OpenChild(NewWindow),
    Close,
    Send(WindowId, Msg),
    /// Redraw part of the window.
    RedrawRect(Rect),
    SetFullscreen(bool),
    SetResolution(u32, u32),
    RevertResolution(u32, u32),
    Shutdown,
    Reboot,
}

pub enum CommandState {
    Open(NewWindowState),
    OpenChild(NewWindowState),
    Close,
    Send(WindowId, MsgState),
    RedrawRect(Rect),
    SetFullscreen(bool),
    SetResolution(u32, u32),
    RevertResolution(u32, u32),
    Shutdown,
    Reboot,
}

impl View for Command {
    type V = CommandState;

    open spec fn view(&self) -> CommandState {
        match *self {
            Command::Open(w) => CommandState::Open(w@),
            Command::OpenChild(w) => CommandState::OpenChild(w@),
            Command::Close => CommandState::Close,
            Command::Send(to, m) => CommandState::Send(to, m@),
            Command::RedrawRect(r) => CommandState::RedrawRect(r),
            Command::SetFullscreen(on) => CommandState::SetFullscreen(on),
            Command::SetResolution(w, h) => CommandState::SetResolution(w, h),
            Command::RevertResolution(w, h) => CommandState::RevertResolution(w, h),
            Command::Shutdown => CommandState::Shutdown,
            Command::Reboot => CommandState::Reboot,
        }
    }
}

/// Per-call context handed to apps.
pub struct Ctx {
    pub window: WindowId,
    pub redraw: bool,
    pub commands: Vec<Command>,
}

#[verifier::ext_equal]
pub struct CtxState {
    pub window: WindowId,
    pub redraw: bool,
    pub commands: Seq<CommandState>,
}

impl CtxState {
    /// The context after a redraw was asked for.
    pub open spec fn redrawn(self) -> CtxState {
        CtxState { redraw: true, ..self }
    }

    /// The context after one more command.
    pub open spec fn with(self, c: CommandState) -> CtxState {
        CtxState { commands: self.commands.push(c), ..self }
    }

    pub open spec fn closed(self) -> CtxState {
        self.with(CommandState::Close)
    }
}

impl View for Ctx {
    type V = CtxState;

    open spec fn view(&self) -> CtxState {
        CtxState {
            window: self.window,
            redraw: self.redraw,
            commands: Seq::new(self.commands@.len(), |i: int| self.commands@[i]@),
        }
    }
}

impl Ctx {
    pub fn new(window: WindowId) -> (r: Ctx)
        ensures
            r@ == (CtxState { window, redraw: false, commands: Seq::empty() }),
    {
        let r: Ctx = Ctx { window, redraw: false, commands: Vec::new() };
        proof {
            assert(r@.commands =~= Seq::<CommandState>::empty());
        }
        r
    }

    pub fn redraw(&mut self)
        ensures
            final(self)@ == old(self)@.redrawn(),
    {
        self.redraw = true;
        proof {
            assert(self@.commands =~= old(self)@.commands);
        }
    }

    /// Add one command.
    pub fn request(&mut self, c: Command)
        ensures
            final(self)@ == old(self)@.with(c@),
    {
        self.commands.push(c);
        proof {
            assert(self@.commands =~= old(self)@.commands.push(c@));
        }
    }

    pub fn open(&mut self, app: NewWindow)
        ensures
            final(self)@ == old(self)@.with(CommandState::Open(app@)),
    {
        self.request(Command::Open(app));
    }

    pub fn open_child(&mut self, app: NewWindow)
        ensures
            final(self)@ == old(self)@.with(CommandState::OpenChild(app@)),
    {
        self.request(Command::OpenChild(app));
    }

    pub fn close(&mut self)
        ensures
            final(self)@ == old(self)@.closed(),
    {
        self.request(Command::Close);
    }

    pub fn send(&mut self, to: WindowId, msg: Msg)
        ensures
            final(self)@ == old(self)@.with(CommandState::Send(to, msg@)),
    {
        self.request(Command::Send(to, msg));
    }
}

#[derive(Clone, Copy, PartialEq, Eq, Debug, Structural)]
pub enum AppKind {
    Explorer,
    Terminal,
    Editor,
    Settings,
    Browser,
    About,
    Other,
}

} // verus!
