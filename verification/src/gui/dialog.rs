//! Small modal-style dialogs that report back to the window that opened
//! them with `Msg::DialogResult`.

use super::app::{AppEvent, CommandState, Ctx, CtxState, Msg, MsgState, WindowId};
use super::geom::{inside, Rect};
use super::widgets::{TextInput, TextInputState};
use crate::arith::fits;
use crate::input::{Key, KeyEvent};
use crate::text::{to_chars, to_text};
use vstd::prelude::*;

verus! {

pub struct Dialog {
    pub title: Vec<char>,
    pub message: Vec<char>,
    pub input: Option<TextInput>,
    pub ok_label: Vec<char>,
    pub cancel_label: Option<Vec<char>>,
    pub danger: bool,
    /// The second button is an alternative answer rather than "Cancel".
    pub second_is_alt: bool,
    pub tag: u32,
    pub reply_to: WindowId,
    pub hover: Option<u8>,
    pub size: (i32, i32),
    pub answered: bool,
}

#[verifier::ext_equal]
pub struct DialogState {
    pub title: Seq<char>,
    pub message: Seq<char>,
    pub input: Option<TextInputState>,
    pub ok_label: Seq<char>,
    pub cancel_label: Option<Seq<char>>,
    pub danger: bool,
    pub second_is_alt: bool,
    pub tag: u32,
    pub reply_to: WindowId,
    pub hover: Option<u8>,
    pub size: (i32, i32),
    pub answered: bool,
}

impl View for Dialog {
    type V = DialogState;

    open spec fn view(&self) -> DialogState {
        DialogState {
            title: self.title@,
            message: self.message@,
            input: match self.input {
                Some(i) => Some(i@),
                None => None,
            },
            ok_label: self.ok_label@,
            cancel_label: match self.cancel_label {
                Some(l) => Some(l@),
                None => None,
            },
            danger: self.danger,
            second_is_alt: self.second_is_alt,
            tag: self.tag,
            reply_to: self.reply_to,
            hover: self.hover,
            size: self.size,
            answered: self.answered,
        }
    }
}

#[derive(Clone, Copy, PartialEq, Eq, Structural)]
pub enum Answer {
    Accept,
    Second,
    Cancel,
}

impl DialogState {
    pub open spec fn wf(self) -> bool {
        &&& (self.input matches Some(i) ==> i.wf())
        &&& fits(self.size.0 - 214)
        &&& fits(self.size.1 - 44)
    }

    pub open spec fn over_ok(self, x: int, y: int) -> bool {
        inside(self.size.0 - 110, self.size.1 - 44, 94, 30, x, y)
    }

    pub open spec fn over_cancel(self, x: int, y: int) -> bool {
        self.cancel_label is Some && inside(self.size.0 - 214, self.size.1 - 44, 94, 30, x, y)
    }

    /// What an answer says to the window that asked.
    pub open spec fn value(self, a: Answer) -> Option<Seq<char>> {
        match a {
            Answer::Accept => Some(
                match self.input {
                    Some(i) => i.text,
                    None => "ok"@,
                },
            ),
            Answer::Second => if self.second_is_alt { Some("alt"@) } else { None },
            Answer::Cancel => None,
        }
    }

    pub open spec fn reply(self, value: Option<Seq<char>>) -> CommandState {
        CommandState::Send(self.reply_to, MsgState::DialogResult { tag: self.tag, value })
    }

    /// Answering: the first answer is sent and closes the window, every
    /// later one does nothing.
    pub open spec fn finished(self, a: Answer, c: CtxState) -> (DialogState, CtxState) {
        if self.answered {
            (self, c)
        } else {
            (DialogState { answered: true, ..self }, c.with(self.reply(self.value(a))).closed())
        }
    }

    pub open spec fn hovered(self, x: int, y: int) -> Option<u8> {
        if self.over_ok(x, y) {
            Some(0u8)
        } else if self.over_cancel(x, y) {
            Some(1u8)
        } else {
            None
        }
    }

    /// The dialog and its requests after an event.
    pub open spec fn after(self, ev: AppEvent, c: CtxState) -> (DialogState, CtxState) {
        match ev {
            AppEvent::MouseMove { x, y, buttons } => {
                let h = self.hovered(x as int, y as int);
                if h != self.hover {
                    (DialogState { hover: h, ..self }, c.redrawn())
                } else {
                    (self, c)
                }
            },
            AppEvent::MouseDown { x, y, button, clicks } => {
                if self.over_ok(x as int, y as int) {
                    self.finished(Answer::Accept, c)
                } else if self.over_cancel(x as int, y as int) {
                    self.finished(Answer::Second, c)
                } else {
                    (self, c)
                }
            },
            AppEvent::Key(k) => if !k.pressed {
                (self, c)
            } else {
                match k.key {
                    Key::Enter => self.finished(Answer::Accept, c),
                    Key::Escape => self.finished(Answer::Cancel, c),
                    _ => match self.input {
                        Some(i) => {
                            let (n, used) = i.after_key(k);
                            (DialogState { input: Some(n), ..self }, if used { c.redrawn() } else { c })
                        },
                        None => (self, c),
                    },
                }
            },
            _ => (self, c),
        }
    }
}

impl Dialog {
    /// Ask for a line of text (e.g. a file name).
    pub fn input(title: &str, message: &str, initial: &str, ok: &str, tag: u32, reply_to: WindowId) -> (r: Dialog)
        ensures
            r@ == (DialogState {
                title: title@,
                message: message@,
                input: Some(TextInputState::initial(initial@).stem_selected()),
                ok_label: ok@,
                cancel_label: Some("Cancel"@),
                danger: false,
                second_is_alt: false,
                tag,
                reply_to,
                hover: None,
                size: (400i32, 160i32),
                answered: false,
            }),
            r@.wf(),
    {
        let mut input: TextInput = TextInput::new(initial);
        input.select_stem();
        Dialog {
            title: to_chars(title),
            message: to_chars(message),
            input: Some(input),
            ok_label: to_chars(ok),
            cancel_label: Some(to_chars("Cancel")),
            danger: false,
            second_is_alt: false,
            tag,
            reply_to,
            hover: None,
            size: (400i32, 160i32),
            answered: false,
        }
    }

    /// Ask for confirmation.
    pub fn confirm(title: &str, message: &str, ok: &str, danger: bool, tag: u32, reply_to: WindowId) -> (r: Dialog)
        ensures
            r@ == (DialogState {
                title: title@,
                message: message@,
                input: None,
                ok_label: ok@,
                cancel_label: Some("Cancel"@),
                danger,
                second_is_alt: false,
                tag,
                reply_to,
                hover: None,
                size: (400i32, 140i32),
                answered: false,
            }),
            r@.wf(),
    {
        Dialog {
            title: to_chars(title),
            message: to_chars(message),
            input: None,
            ok_label: to_chars(ok),
            cancel_label: Some(to_chars("Cancel")),
            danger,
            second_is_alt: false,
            tag,
            reply_to,
            hover: None,
            size: (400i32, 140i32),
            answered: false,
        }
    }

    /// Three-way choice: OK (value "ok"), alternative (value "alt"), cancel.
    pub fn choice(title: &str, message: &str, ok: &str, alt: &str, tag: u32, reply_to: WindowId) -> (r: Dialog)
        ensures
            r@ == (DialogState {
                title: title@,
                message: message@,
                input: None,
                ok_label: ok@,
                cancel_label: Some(alt@),
                danger: false,
                second_is_alt: true,
                tag,
                reply_to,
                hover: None,
                size: (420i32, 140i32),
                answered: false,
            }),
            r@.wf(),
    {
        let mut d: Dialog = Dialog::confirm(title, message, ok, false, tag, reply_to);
        d.cancel_label = Some(to_chars(alt));
        d.second_is_alt = true;
        d.size = (420i32, 140i32);
        d
    }

    pub fn ok_rect(&self) -> (r: Rect)
        requires
            self@.wf(),
        ensures
            r.x == self.size.0 - 110,
            r.y == self.size.1 - 44,
            r.w == 94,
            r.h == 30,
    {
        Rect::new(self.size.0 - 110, self.size.1 - 44, 94, 30)
    }

    pub fn cancel_rect(&self) -> (r: Rect)
        requires
            self@.wf(),
        ensures
            r.x == self.size.0 - 214,
            r.y == self.size.1 - 44,
            r.w == 94,
            r.h == 30,
    {
        Rect::new(self.size.0 - 214, self.size.1 - 44, 94, 30)
    }

    pub fn finish(&mut self, answer: Answer, ctx: &mut Ctx)
        ensures
            (final(self)@, final(ctx)@) == old(self)@.finished(answer, old(ctx)@),
    {
        if self.answered {
            return;
        }
        let value: Option<String> = match answer {
            Answer::Accept => match &self.input {
                Some(i) => Some(to_text(&i.text)),
                None => Some(to_text(&to_chars("ok"))),
            },
            Answer::Second => if self.second_is_alt { Some(to_text(&to_chars("alt"))) } else { None },
            Answer::Cancel => None,
        };
        self.answered = true;
        ctx.send(self.reply_to, Msg::DialogResult { tag: self.tag, value });
        ctx.close();
    }

    pub fn event(&mut self, ev: &AppEvent, ctx: &mut Ctx)
        requires
            old(self)@.wf(),
        ensures
            (final(self)@, final(ctx)@) == old(self)@.after(*ev, old(ctx)@),
            final(self)@.wf(),
    {
        match ev {
            AppEvent::MouseMove { x, y, buttons } => {
                let h: Option<u8> = if self.ok_rect().contains(*x, *y) {
                    Some(0u8)
                } else if self.cancel_label.is_some() && self.cancel_rect().contains(*x, *y) {
                    Some(1u8)
                } else {
                    None
                };
                if h != self.hover {
                    self.hover = h;
                    ctx.redraw();
                }
            },
            AppEvent::MouseDown { x, y, button, clicks } => {
                if self.ok_rect().contains(*x, *y) {
                    self.finish(Answer::Accept, ctx);
                } else if self.cancel_label.is_some() && self.cancel_rect().contains(*x, *y) {
                    self.finish(Answer::Second, ctx);
                }
            },
            AppEvent::Key(k) => {
                if k.pressed {
                    match k.key {
                        Key::Enter => self.finish(Answer::Accept, ctx),
                        Key::Escape => self.finish(Answer::Cancel, ctx),
                        _ => {
                            if let Some(mut i) = self.input.take() {
                                let used: bool = i.key(k);
                                self.input = Some(i);
                                if used {
                                    ctx.redraw();
                                }
                            }
                        },
                    }
                }
            },
            _ => {},
        }
    }

    /// Closing the window is a cancel, unless an answer was given.
    pub fn request_close(&mut self, ctx: &mut Ctx) -> (r: bool)
        ensures
            r,
            final(self)@ == (DialogState { answered: true, ..old(self)@ }),
            final(ctx)@ == if old(self)@.answered { old(ctx)@ } else { old(ctx)@.with(old(self)@.reply(None)) },
    {
        if !self.answered {
            self.answered = true;
            ctx.send(self.reply_to, Msg::DialogResult { tag: self.tag, value: None });
        }
        true
    }
}

/// A dialog that was answered sends no second answer, whatever happens.
pub proof fn lemma_answers_once(d: DialogState, ev: AppEvent, c: CtxState)
    requires
        d.answered,
    ensures
        d.after(ev, c).0.answered,
        d.after(ev, c).1.commands == c.commands,
{
}

/// An event adds to the requests only the one reply and the close that
/// follows it.
pub proof fn lemma_reply_closes(d: DialogState, ev: AppEvent, c: CtxState)
    requires
        !d.answered,
        d.after(ev, c).0.answered,
    ensures
        exists|v: Option<Seq<char>>|
            d.after(ev, c).1.commands == c.commands.push(#[trigger] d.reply(v)).push(CommandState::Close),
{
    let a = match ev {
        AppEvent::MouseDown { x, y, button, clicks } => if d.over_ok(x as int, y as int) {
            Answer::Accept
        } else {
            Answer::Second
        },
        AppEvent::Key(k) => if k.key == Key::Enter { Answer::Accept } else { Answer::Cancel },
        _ => Answer::Cancel,
    };
    let v = d.value(a);
    assert(d.after(ev, c) == d.finished(a, c));
    assert(d.after(ev, c).1.commands == c.commands.push(d.reply(v)).push(CommandState::Close));
}

/// Enter and the first button answer with what was typed, or yes where there
/// is nothing to type; Escape and the other button answer no, unless that one
/// stands for a choice of its own. The answer goes to the window that asked.
pub proof fn lemma_answers(d: DialogState, k: KeyEvent, x: i32, y: i32, button: u8, clicks: u8, c: CtxState)
    requires
        !d.answered,
        k.pressed,
    ensures
        ({
            let yes = match d.input {
                Some(i) => i.text,
                None => "ok"@,
            };
            let press = d.after(AppEvent::MouseDown { x, y, button, clicks }, c).1;
            let sent = |v: Option<Seq<char>>|
                c.with(CommandState::Send(d.reply_to, MsgState::DialogResult { tag: d.tag, value: v })).closed();
            &&& k.key == Key::Enter ==> d.after(AppEvent::Key(k), c).1 == sent(Some(yes))
            &&& k.key == Key::Escape ==> d.after(AppEvent::Key(k), c).1 == sent(None)
            &&& d.over_ok(x as int, y as int) ==> press == sent(Some(yes))
            &&& d.over_cancel(x as int, y as int) && !d.second_is_alt ==> press == sent(None)
            &&& d.over_cancel(x as int, y as int) && d.second_is_alt ==> press == sent(Some("alt"@))
            &&& !d.over_ok(x as int, y as int) && !d.over_cancel(x as int, y as int) ==> press == c
        }),
{
}

/// The two buttons stand side by side: no point is on both.
pub proof fn lemma_buttons_apart(d: DialogState, x: int, y: int)
    ensures
        !(d.over_ok(x, y) && d.over_cancel(x, y)),
        d.hovered(x, y) == Some(0u8) <==> d.over_ok(x, y),
        d.hovered(x, y) == Some(1u8) <==> d.over_cancel(x, y),
{
}

} // verus!
