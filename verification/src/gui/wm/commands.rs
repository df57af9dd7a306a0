//! What apps ask of the window manager.

use super::super::app::{AppEvent, Command, CommandState, Msg, NewWindow, WindowId};
use super::super::geom::Rect;
use super::desktop::{find, Window, Wm, WmState};
use super::stack::lemma_window;
use vstd::prelude::*;

verus! {

/// What is left to do for a command.
pub enum Chore {
    Nothing,
    /// Start an app in a new window; whether it is centred over the sender.
    Open(NewWindow, bool),
    /// Change the display mode, then call `set_resolution` and
    /// `resolution_changed`.
    Resolution(u32, u32),
    /// Go back to a display mode.
    Revert(u32, u32),
    Fullscreen(bool),
    /// Draw part of the window again.
    Redraw(Rect),
    ShutDown,
    Restart,
}

impl Chore {
    /// Whether this is what the command asks for beyond the windows.
    pub open spec fn is_for(self, c: CommandState) -> bool {
        match c {
            CommandState::Open(w) => self matches Chore::Open(n, over) && n@ == w && !over,
            CommandState::OpenChild(w) => self matches Chore::Open(n, over) && n@ == w && over,
            CommandState::SetResolution(w, h) => self == Chore::Resolution(w, h),
            CommandState::RevertResolution(w, h) => self == Chore::Revert(w, h),
            CommandState::SetFullscreen(on) => self == Chore::Fullscreen(on),
            CommandState::RedrawRect(r) => self == Chore::Redraw(r),
            CommandState::Shutdown => self == Chore::ShutDown,
            CommandState::Reboot => self == Chore::Restart,
            _ => self == Chore::Nothing,
        }
    }
}

impl WmState {
    /// A message goes to a window, if it is still there.
    pub open spec fn sent(self, to: WindowId, m: Msg) -> WmState {
        if find(self.windows, to) is Some { self.delivered(to, AppEvent::Message(m)) } else { self }
    }

    /// What becomes of the windows when an app gives a command.
    pub open spec fn applied(self, id: WindowId, c: Command, now: u64) -> WmState {
        match c {
            Command::Close => self.closed(id, now),
            Command::Send(to, m) => self.sent(to, m),
            _ => self,
        }
    }

    /// The window is drawn again in the next frame.
    pub open spec fn redraw_asked(self, id: WindowId) -> WmState {
        match find(self.windows, id) {
            Some(i) => self.with_window(i, Window { needs_render: true, ..self.windows[i] }),
            None => self,
        }
    }
}

impl Wm {
    pub fn send(&mut self, to: WindowId, m: Msg)
        requires
            old(self)@.wf(),
        ensures
            final(self)@ == old(self)@.sent(to, m),
            final(self)@.wf(),
    {
        if self.index_of(to).is_some() {
            self.deliver(to, AppEvent::Message(m));
        }
    }

    /// An app asked for its window to be drawn again.
    pub fn ask_redraw(&mut self, id: WindowId)
        requires
            old(self)@.wf(),
        ensures
            final(self)@ == old(self)@.redraw_asked(id),
            final(self)@.wf(),
    {
        if let Some(i) = self.index_of(id) {
            proof {
                lemma_window(self@, i as int);
            }
            let w: Window = Window { needs_render: true, ..self.windows[i] };
            self.set_window(i, w);
        }
    }

    /// Carries out a command of the app in window `id`, as far as it is about
    /// windows; gives what is left to do.
    pub fn apply(&mut self, id: WindowId, c: Command, now: u64) -> (r: Chore)
        requires
            old(self)@.wf(),
        ensures
            final(self)@ == old(self)@.applied(id, c, now),
            r.is_for(c@),
            final(self)@.wf(),
    {
        match c {
            Command::Open(w) => Chore::Open(w, false),
            Command::OpenChild(w) => Chore::Open(w, true),
            Command::Close => {
                self.close(id, now);
                Chore::Nothing
            },
            Command::Send(to, m) => {
                self.send(to, m);
                Chore::Nothing
            },
            Command::SetResolution(w, h) => Chore::Resolution(w, h),
            Command::RevertResolution(w, h) => Chore::Revert(w, h),
            Command::SetFullscreen(on) => Chore::Fullscreen(on),
            Command::RedrawRect(r) => Chore::Redraw(r),
            Command::Shutdown => Chore::ShutDown,
            Command::Reboot => Chore::Restart,
        }
    }

    /// Tells the app in a window whether the display mode was changed.
    pub fn resolution_changed(&mut self, id: WindowId, ok: bool)
        requires
            old(self)@.wf(),
        ensures
            final(self)@ == old(self)@.sent(id, Msg::ResolutionResult(ok)),
            final(self)@.wf(),
    {
        self.send(id, Msg::ResolutionResult(ok));
    }
}

/// A message to a window that is gone reaches nobody, and changes nothing.
pub proof fn lemma_sent_to_nobody(st: WmState, to: WindowId, m: Msg)
    requires
        forall|i: int| 0 <= i < st.windows.len() ==> (#[trigger] st.windows[i]).id != to,
    ensures
        st.sent(to, m) == st,
{
    super::desktop::lemma_find_from(st.windows, to, 0);
}

} // verus!
