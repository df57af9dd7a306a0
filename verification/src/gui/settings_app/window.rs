//! The window of the Settings app.

use super::prefs::{
    knob_at, knob_position, set_slider, set_toggle, slid, slider_at, slider_value, slider_value_at, toggle_value,
    toggled, with_slider, with_toggle, Knob, Settings, Slider, Toggle, TOGGLE_MS,
};
use crate::arith::{clamp, max, min};
use crate::gui::app::{AppEvent, Command, CommandState, Ctx, CtxState, Msg, NewWindow, NewWindowState};
use crate::gui::dialog::{Dialog, DialogState};
use crate::gui::geom::Area;
use crate::gui::widgets::{TextInput, TextInputState};
use crate::input::{Key, KeyEvent};
use crate::text::{dec, push_all, push_dec, push_str, to_chars, to_text, trim, trimmed, views};
use vstd::prelude::*;

verus! {

pub const TAG_SETUP_DISK: u32 = 40;
pub const PAGE_MS: u64 = 200;

#[derive(Clone, Copy, PartialEq, Eq, Debug, Structural)]
pub enum Page {
    Display,
    Personalization,
    Sound,
    Network,
    Input,
    DateTime,
    Storage,
    About,
}

#[derive(Clone, Copy, PartialEq, Eq, Debug, Structural)]
pub enum Action {
    Page(Page),
    Toggle(Toggle),
    Slider(Slider),
    Resolution(u32, u32),
    Wallpaper(usize),
    Picture(usize),
    DockPosition(u8),
    DockSize(u8),
    Accent(usize),
    TzMinus,
    TzPlus,
    TestSound,
    RenewDhcp,
    ApplyStatic,
    PingGateway,
    PingInternet,
    LookupName,
    Input(usize),
    ResetSettings,
    SetupDisk(usize),
}

/// What the app asks for.
#[derive(Clone, Copy, PartialEq, Eq, Debug, Structural)]
pub enum Effect {
    Nothing,
    /// The settings in force were changed: keep them.
    Update,
    /// They were changed while a slider moves; they are kept when it is let
    /// go.
    Live,
    /// Keep the settings; whether to let a click be heard.
    Keep { click: bool },
    /// The settings in force were changed: keep them, and ask for an address.
    UpdateAndUseDhcp,
    /// The wallpaper in force was changed: keep it, and use it in place of a
    /// picture.
    Wallpaper,
    /// Use a picture as the wallpaper.
    Picture(usize),
    TestSound,
    UseDhcp,
    /// Check the first three texts of the form as addresses, then call
    /// `static_checked`.
    CheckStatic,
    /// Run a network test: the gateway, the Internet, or a name.
    NetTest(u8),
    /// Set everything to its default, then call `was_reset`.
    Reset,
    /// Set up a disk of the list.
    Setup(usize),
}

/// All of the app's state but its lists and texts.
#[derive(Clone, Copy)]
pub struct Panel {
    pub page: Page,
    pub page_since: u64,
    pub size: (i32, i32),
    pub hover: Option<Action>,
    /// The settings as the window shows them.
    pub cfg: Settings,
    pub dragging: Option<(Slider, Area)>,
    pub focused_input: Option<usize>,
    pub net_test_running: bool,
    pub last_refresh: u64,
    pub scroll: i32,
    /// How far down the content of the page reaches.
    pub bottom: i32,
    pub pending_setup: Option<usize>,
}

pub open spec fn page_number(p: Page) -> int {
    match p {
        Page::Display => 0,
        Page::Personalization => 1,
        Page::Sound => 2,
        Page::Network => 3,
        Page::Input => 4,
        Page::DateTime => 5,
        Page::Storage => 6,
        Page::About => 7,
    }
}

pub open spec fn page_of(n: int) -> Page {
    if n == 0 {
        Page::Display
    } else if n == 1 {
        Page::Personalization
    } else if n == 2 {
        Page::Sound
    } else if n == 3 {
        Page::Network
    } else if n == 4 {
        Page::Input
    } else if n == 5 {
        Page::DateTime
    } else if n == 6 {
        Page::Storage
    } else {
        Page::About
    }
}

/// Pages and their numbers go together; down and up again is the same page.
pub proof fn lemma_pages(p: Page)
    ensures
        page_of(page_number(p)) == p,
        page_of((page_number(page_of((page_number(p) + 1) % 8)) + 7) % 8) == p,
{
}

/// What is listed in a message: its text, whether it is good news, and
/// until when it is shown.
pub type Message = Option<(Vec<char>, bool, u64)>;

pub struct SettingsApp {
    pub panel: Panel,
    pub hits: Vec<(Area, Action)>,
    pub knobs: Vec<Knob>,
    pub inputs: Vec<TextInput>,
    pub message: Message,
    /// The number of pictures found.
    pub pictures: usize,
    /// Disks offered on the Storage page: description, erases data.
    pub disk_targets: Vec<(Vec<char>, bool)>,
}

/// The control at a point: the one drawn last.
pub open spec fn hit(hits: Seq<(Area, Action)>, x: int, y: int) -> Option<(Area, Action)>
    decreases hits.len(),
{
    if hits.len() == 0 {
        None
    } else if hits.last().0.spec_has(x, y) {
        Some(hits.last())
    } else {
        hit(hits.drop_last(), x, y)
    }
}

pub open spec fn knob_for(knobs: Seq<Knob>, t: Toggle, k: int) -> Option<Knob>
    decreases knobs.len() - k,
{
    if k < 0 || k >= knobs.len() {
        None
    } else if knobs[k].toggle == t {
        Some(knobs[k])
    } else {
        knob_for(knobs, t, k + 1)
    }
}

pub open spec fn knobs_without(knobs: Seq<Knob>, t: Toggle) -> Seq<Knob>
    decreases knobs.len(),
{
    if knobs.len() == 0 {
        Seq::empty()
    } else {
        let rest = knobs_without(knobs.drop_last(), t);
        if knobs.last().toggle == t { rest } else { rest.push(knobs.last()) }
    }
}

pub open spec fn until(now: u64) -> u64 {
    if now + 5000 > u64::MAX { u64::MAX } else { (now + 5000) as u64 }
}

pub open spec fn message_of(m: Message) -> Option<(Seq<char>, bool, u64)> {
    match m {
        Some((t, ok, u)) => Some((t@, ok, u)),
        None => None,
    }
}

impl Panel {
    pub open spec fn on_page(self, p: Page, now: u64) -> Panel {
        if p == self.page {
            self
        } else {
            Panel {
                page: p,
                page_since: if self.cfg.animations { now } else { 0 },
                focused_input: None,
                scroll: 0,
                ..self
            }
        }
    }

    /// The slider follows the pointer: the setting in force changes, and the
    /// window shows what is in force then.
    pub open spec fn slid_to(self, live: Settings, sl: Slider, a: Area, x: int) -> (Panel, Settings, Effect) {
        let v = slider_at(sl, a, x);
        if v != slid(self.cfg, sl) {
            let cfg = with_slider(live, sl, v);
            (Panel { cfg, ..self }, cfg, Effect::Live)
        } else {
            (self, live, Effect::Nothing)
        }
    }

    /// Scrolled by the wheel.
    pub open spec fn wheeled(self, delta: int) -> Panel {
        let content = self.bottom + self.scroll + 24;
        let to = clamp(self.scroll + delta * 40, 0, max(content - self.size.1, 0));
        Panel { scroll: min(to, i32::MAX as int) as i32, ..self }
    }

    pub open spec fn animating(self, knobs: Seq<Knob>, now: int) -> bool {
        ||| exists|i: int| 0 <= i < knobs.len() && now - (#[trigger] knobs[i]).start < TOGGLE_MS + 20
        ||| self.page_since != 0 && now - self.page_since < PAGE_MS + 20
    }

    /// Whether the page shows things that change by themselves.
    pub open spec fn is_live(self) -> bool {
        self.page == Page::Network || self.page == Page::DateTime || self.page == Page::About || self.page
            == Page::Storage
    }
}

/// The settings that an action leads to from those in force, for actions that
/// only set one.
pub open spec fn set_by(live: Settings, a: Action) -> Option<Settings> {
    match a {
        Action::Wallpaper(i) => Some(Settings { wallpaper: i, ..live }),
        Action::Accent(i) => Some(Settings { accent: i, ..live }),
        Action::DockPosition(p) => Some(Settings { dock_position: p, ..live }),
        Action::DockSize(z) => Some(Settings { dock_size: z, ..live }),
        Action::TzMinus => Some(Settings { tz_offset_min: max(live.tz_offset_min - 30, -720) as i32, ..live }),
        Action::TzPlus => Some(Settings { tz_offset_min: min(live.tz_offset_min + 30, 840) as i32, ..live }),
        _ => None,
    }
}

/// The time zone stays within what there is on Earth.
pub proof fn lemma_tz_in_range(live: Settings)
    requires
        -720 <= live.tz_offset_min <= 840,
    ensures
        -720 <= set_by(live, Action::TzMinus)->0.tz_offset_min <= 840,
        -720 <= set_by(live, Action::TzPlus)->0.tz_offset_min <= 840,
{
}

/// An hour forward is two steps of the time zone, and a step back undoes a
/// step forward; at the two ends of the range it goes no further.
pub proof fn lemma_tz_steps(live: Settings)
    requires
        -720 <= live.tz_offset_min <= 840,
    ensures
        live.tz_offset_min + 30 <= 840 ==> ({
            let plus = set_by(live, Action::TzPlus)->0;
            &&& plus.tz_offset_min - live.tz_offset_min == 30
            &&& set_by(plus, Action::TzMinus) == Some(live)
        }),
        live.tz_offset_min - 30 >= -720 ==> ({
            let minus = set_by(live, Action::TzMinus)->0;
            &&& live.tz_offset_min - minus.tz_offset_min == 30
            &&& set_by(minus, Action::TzPlus) == Some(live)
        }),
        live.tz_offset_min == 840 ==> set_by(live, Action::TzPlus) == Some(live),
        live.tz_offset_min == -720 ==> set_by(live, Action::TzMinus) == Some(live),
{
}

/// Choosing a wallpaper, an accent or the place and size of the dock changes
/// that one setting and no toggle or slider.
pub proof fn lemma_choice_kept(live: Settings, a: Action, t: Toggle, sl: Slider)
    requires
        set_by(live, a) is Some,
    ensures
        ({
            let n = set_by(live, a)->0;
            &&& toggled(n, t) == toggled(live, t)
            &&& slid(n, sl) == slid(live, sl)
            &&& n.wallpaper == (match a {
                Action::Wallpaper(i) => i,
                _ => live.wallpaper,
            })
            &&& n.accent == (match a {
                Action::Accent(i) => i,
                _ => live.accent,
            })
            &&& n.dock_position == (match a {
                Action::DockPosition(p) => p,
                _ => live.dock_position,
            })
            &&& n.dock_size == (match a {
                Action::DockSize(z) => z,
                _ => live.dock_size,
            })
            &&& !(a is TzPlus || a is TzMinus) ==> n.tz_offset_min == live.tz_offset_min
        }),
{
}

/// What is pressed is the topmost of the things at the point: the last one in
/// the list.
pub proof fn lemma_topmost_pressed(hits: Seq<(Area, Action)>, x: int, y: int)
    ensures
        match hit(hits, x, y) {
            Some(h) => exists|i: int|
                0 <= i < hits.len() && #[trigger] hits[i] == h && h.0.spec_has(x, y) && forall|k: int|
                    i < k < hits.len() ==> !(#[trigger] hits[k]).0.spec_has(x, y),
            None => forall|i: int| 0 <= i < hits.len() ==> !(#[trigger] hits[i]).0.spec_has(x, y),
        },
    decreases hits.len(),
{
    if hits.len() > 0 {
        let d = hits.drop_last();
        if hits.last().0.spec_has(x, y) {
            assert(hits[hits.len() - 1] == hits.last());
        } else {
            lemma_topmost_pressed(d, x, y);
            match hit(hits, x, y) {
                Some(h) => {
                    let i = choose|i: int|
                        0 <= i < d.len() && #[trigger] d[i] == h && h.0.spec_has(x, y) && forall|k: int|
                            i < k < d.len() ==> !(#[trigger] d[k]).0.spec_has(x, y);
                    assert(hits[i] == h);
                    assert forall|k: int| i < k < hits.len() implies !(#[trigger] hits[k]).0.spec_has(x, y) by {
                        if k < d.len() {
                            assert(hits[k] == d[k]);
                        }
                    }
                },
                None => {
                    assert forall|i: int| 0 <= i < hits.len() implies !(#[trigger] hits[i]).0.spec_has(x, y) by {
                        if i < d.len() {
                            assert(hits[i] == d[i]);
                        }
                    }
                },
            }
        }
    }
}

fn setting_for(live: &Settings, a: Action) -> (r: Option<Settings>)
    ensures
        r == set_by(*live, a),
{
    let mut cfg: Settings = *live;
    let t: i32 = cfg.tz_offset_min;
    match a {
        Action::Wallpaper(i) => cfg.wallpaper = i,
        Action::Accent(i) => cfg.accent = i,
        Action::DockPosition(p) => cfg.dock_position = p,
        Action::DockSize(z) => cfg.dock_size = z,
        Action::TzMinus => cfg.tz_offset_min = if t > -690 { t - 30 } else { -720 },
        Action::TzPlus => cfg.tz_offset_min = if t < 810 { t + 30 } else { 840 },
        _ => {
            return None;
        },
    }
    Some(cfg)
}

impl SettingsApp {
    pub open spec fn wf(self) -> bool {
        &&& self.inputs@.len() == 4
        &&& forall|i: int|
            0 <= i < 4 ==> (#[trigger] self.inputs@[i])@.wf() && 0 <= self.inputs@[i].scroll <= 1_000_000_000
        &&& (self.panel.focused_input matches Some(i) ==> i < 4)
        &&& forall|i: int|
            0 <= i < self.hits@.len() ==> (#[trigger] self.hits@[i]).0.small() && (self.hits@[i].1 is Slider
                ==> self.hits@[i].0.w >= 24) && (self.hits@[i].1 matches Action::Input(k) ==> k < 4)
        &&& (self.panel.dragging matches Some((sl, a)) ==> a.small() && a.w >= 24)
        &&& forall|i: int| 0 <= i < self.knobs@.len() ==> 0 <= (#[trigger] self.knobs@[i]).from <= 1024
        &&& 0 <= self.panel.scroll
        &&& 0 <= self.panel.size.1
    }

    /// Time does not run backwards.
    pub open spec fn before(self, now: u64) -> bool {
        &&& forall|i: int| 0 <= i < self.knobs@.len() ==> (#[trigger] self.knobs@[i]).start <= now
        &&& self.panel.page_since <= now
        &&& self.panel.last_refresh <= now
    }

    /// All but the panel and the message is as it was.
    pub open spec fn same_lists(self, o: SettingsApp) -> bool {
        self.hits == o.hits && self.inputs == o.inputs && self.pictures == o.pictures && self.disk_targets
            == o.disk_targets
    }

    pub fn new(cfg: Settings, ip: &str, mask: &str, gateway: &str, dns: &str) -> (r: SettingsApp)
        ensures
            r.wf(),
            r.panel == (Panel {
                page: Page::Display,
                page_since: 0,
                size: (860, 560),
                hover: None,
                cfg,
                dragging: None,
                focused_input: None,
                net_test_running: false,
                last_refresh: 0,
                scroll: 0,
                bottom: 0,
                pending_setup: None,
            }),
            r.hits@.len() == 0,
            r.knobs@.len() == 0,
            r.message is None,
            r.pictures == 0,
            r.disk_targets@.len() == 0,
            r.inputs@[0]@ == TextInputState::initial(ip@),
            r.inputs@[1]@ == TextInputState::initial(mask@),
            r.inputs@[2]@ == TextInputState::initial(gateway@),
            r.inputs@[3]@ == TextInputState::initial(dns@),
    {
        let mut inputs: Vec<TextInput> = Vec::new();
        inputs.push(TextInput::new(ip));
        inputs.push(TextInput::new(mask));
        inputs.push(TextInput::new(gateway));
        inputs.push(TextInput::new(dns));
        SettingsApp {
            panel: Panel {
                page: Page::Display,
                page_since: 0,
                size: (860, 560),
                hover: None,
                cfg,
                dragging: None,
                focused_input: None,
                net_test_running: false,
                last_refresh: 0,
                scroll: 0,
                bottom: 0,
                pending_setup: None,
            },
            hits: Vec::new(),
            knobs: Vec::new(),
            inputs,
            message: None,
            pictures: 0,
            disk_targets: Vec::new(),
        }
    }

    fn flash(&mut self, m: Vec<char>, ok: bool, now: u64)
        requires
            old(self).wf(),
        ensures
            message_of(final(self).message) == Some((m@, ok, until(now))),
            final(self).panel == old(self).panel,
            final(self).knobs == old(self).knobs,
            final(self).same_lists(*old(self)),
            final(self).wf(),
    {
        let end: u64 = if now > u64::MAX - 5000 { u64::MAX } else { now + 5000 };
        self.message = Some((m, ok, end));
    }

    fn set_page(&mut self, p: Page, now: u64)
        requires
            old(self).wf(),
        ensures
            final(self).panel == old(self).panel.on_page(p, now),
            final(self).knobs == old(self).knobs,
            final(self).message == old(self).message,
            final(self).same_lists(*old(self)),
            final(self).wf(),
    {
        if p != self.panel.page {
            self.panel.page = p;
            self.panel.page_since = if self.panel.cfg.animations { now } else { 0 };
            self.panel.focused_input = None;
            self.panel.scroll = 0;
        }
    }

    /// Where the knob of a toggle is, out of 1024.
    pub fn knob_pos(&self, t: Toggle, now: u64) -> (r: i64)
        requires
            self.wf(),
            self.before(now),
        ensures
            r == knob_at(
                if toggled(self.panel.cfg, t) { 1024 } else { 0 },
                knob_for(self.knobs@, t, 0),
                now as int,
            ),
            0 <= r <= 1024,
    {
        let mut k: usize = 0;
        let mut found: Option<Knob> = None;
        while k < self.knobs.len() && found.is_none()
            invariant
                k <= self.knobs@.len(),
                self.wf(),
                self.before(now),
                match found {
                    Some(x) => knob_for(self.knobs@, t, 0) == Some(x) && 0 <= x.from <= 1024 && x.start <= now,
                    None => knob_for(self.knobs@, t, 0) == knob_for(self.knobs@, t, k as int),
                },
            decreases self.knobs@.len() - k,
        {
            if self.knobs[k].toggle == t {
                found = Some(self.knobs[k]);
            }
            k += 1;
        }
        knob_position(toggle_value(&self.panel.cfg, t), found, now)
    }

    fn drop_knobs(&mut self, t: Toggle)
        requires
            old(self).wf(),
        ensures
            final(self).knobs@ == knobs_without(old(self).knobs@, t),
            final(self).panel == old(self).panel,
            final(self).message == old(self).message,
            final(self).same_lists(*old(self)),
            final(self).wf(),
    {
        let mut kept: Vec<Knob> = Vec::new();
        let mut i: usize = 0;
        while i < self.knobs.len()
            invariant
                i <= self.knobs@.len(),
                self.wf(),
                kept@ == knobs_without(self.knobs@.take(i as int), t),
                forall|k: int| 0 <= k < kept@.len() ==> 0 <= (#[trigger] kept@[k]).from <= 1024,
            decreases self.knobs@.len() - i,
        {
            proof {
                assert(self.knobs@.take(i + 1).drop_last() =~= self.knobs@.take(i as int));
            }
            if self.knobs[i].toggle != t {
                kept.push(self.knobs[i]);
            }
            i += 1;
        }
        proof {
            assert(self.knobs@.take(self.knobs@.len() as int) =~= self.knobs@);
        }
        self.knobs = kept;
    }

    /// Turn a toggle over. Its knob moves if things move, or if they are to
    /// from now on.
    fn flip(&mut self, t: Toggle, live: &mut Settings, now: u64) -> (r: Effect)
        requires
            old(self).wf(),
            old(self).before(now),
        ensures
            ({
                let p = old(self).panel;
                let v = !toggled(p.cfg, t);
                let cfg = with_toggle(*old(live), t, v);
                let from = knob_at(
                    if toggled(p.cfg, t) { 1024 } else { 0 },
                    knob_for(old(self).knobs@, t, 0),
                    now as int,
                );
                let rest = knobs_without(old(self).knobs@, t);
                &&& *final(live) == cfg
                &&& final(self).panel == (Panel { cfg, ..p })
                &&& final(self).knobs@ == if cfg.animations || t == Toggle::Animations {
                    rest.push(Knob { toggle: t, from: from as i64, start: now })
                } else {
                    rest
                }
                &&& r == if t == Toggle::Dhcp && v { Effect::UpdateAndUseDhcp } else { Effect::Update }
            }),
            final(self).message == old(self).message,
            final(self).same_lists(*old(self)),
            final(self).wf(),
    {
        let from: i64 = self.knob_pos(t, now);
        let v: bool = !toggle_value(&self.panel.cfg, t);
        set_toggle(live, t, v);
        self.panel.cfg = *live;
        self.drop_knobs(t);
        if self.panel.cfg.animations || t == Toggle::Animations {
            self.knobs.push(Knob { toggle: t, from, start: now });
        }
        if t == Toggle::Dhcp && v { Effect::UpdateAndUseDhcp } else { Effect::Update }
    }

    /// The question before a disk is set up.
    fn ask_setup(&mut self, i: usize, ctx: &mut Ctx)
        requires
            old(self).wf(),
        ensures
            if i < old(self).disk_targets@.len() {
                let (desc, erases) = old(self).disk_targets@[i as int];
                &&& final(self).panel == (Panel { pending_setup: Some(i), ..old(self).panel })
                &&& final(ctx)@ == old(ctx)@.with(
                    CommandState::OpenChild(
                        NewWindowState::Dialog(setup_dialog(desc@, erases, old(ctx)@.window)),
                    ),
                )
            } else {
                final(self).panel == old(self).panel && final(ctx)@ == old(ctx)@
            },
            final(self).knobs == old(self).knobs,
            final(self).message == old(self).message,
            final(self).same_lists(*old(self)),
            final(self).wf(),
    {
        if i >= self.disk_targets.len() {
            return;
        }
        let erases: bool = self.disk_targets[i].1;
        let mut m: Vec<char> = to_chars(if erases { "Erase " } else { "Copy MayOS's files to " });
        push_all(&mut m, &self.disk_targets[i].0);
        push_str(
            &mut m,
            if erases {
                " and install MayOS's files on it?"
            } else {
                " and use it as the main disk? Existing files are kept."
            },
        );
        let msg: String = to_text(&m);
        self.panel.pending_setup = Some(i);
        let d: Dialog = Dialog::confirm(
            "Set Up Disk",
            msg.as_str(),
            if erases { "Erase and Set Up" } else { "Set Up" },
            erases,
            TAG_SETUP_DISK,
            ctx.window,
        );
        ctx.open_child(NewWindow::Dialog(d));
    }

    /// What an action does, to the app and to the settings in force.
    #[verifier::rlimit(60)]
    pub fn apply_action(&mut self, a: Action, live: &mut Settings, now: u64, ctx: &mut Ctx) -> (r: Effect)
        requires
            old(self).wf(),
            old(self).before(now),
            a matches Action::Input(i) ==> i < 4,
        ensures
            applied(*old(self), a, *old(live), now, old(ctx)@, *final(self), *final(live), r, final(ctx)@),
            final(self).same_lists(*old(self)),
            final(self).wf(),
    {
        if let Some(cfg) = setting_for(live, a) {
            *live = cfg;
            ctx.redraw();
            return if matches!(a, Action::Wallpaper(_)) { Effect::Wallpaper } else { Effect::Update };
        }
        let r: Effect = match a {
            Action::Page(p) => {
                self.set_page(p, now);
                Effect::Nothing
            },
            Action::Toggle(t) => self.flip(t, live, now),
            Action::Resolution(w, h) => {
                ctx.request(Command::SetResolution(w, h));
                Effect::Nothing
            },
            Action::Picture(i) => if i < self.pictures { Effect::Picture(i) } else { Effect::Nothing },
            Action::TestSound => Effect::TestSound,
            Action::RenewDhcp => {
                self.flash(to_chars("Requesting a new address\u{2026}"), true, now);
                Effect::UseDhcp
            },
            Action::ApplyStatic => Effect::CheckStatic,
            Action::PingGateway => self.start_test(0),
            Action::PingInternet => self.start_test(1),
            Action::LookupName => self.start_test(2),
            Action::Input(i) => {
                self.panel.focused_input = Some(i);
                Effect::Nothing
            },
            Action::ResetSettings => Effect::Reset,
            Action::SetupDisk(i) => {
                self.ask_setup(i, ctx);
                Effect::Nothing
            },
            _ => Effect::Nothing,
        };
        ctx.redraw();
        r
    }

    fn start_test(&mut self, kind: u8) -> (r: Effect)
        requires
            old(self).wf(),
        ensures
            r == if old(self).panel.net_test_running { Effect::Nothing } else { Effect::NetTest(kind) },
            final(self).panel == (Panel { net_test_running: true, ..old(self).panel }),
            final(self).knobs == old(self).knobs,
            final(self).message == old(self).message,
            final(self).same_lists(*old(self)),
            final(self).wf(),
    {
        if self.panel.net_test_running {
            return Effect::Nothing;
        }
        self.panel.net_test_running = true;
        Effect::NetTest(kind)
    }

    /// The texts of the form, without white space around them.
    pub fn static_texts(&self) -> (r: Vec<Vec<char>>)
        requires
            self.wf(),
        ensures
            views(r@) == Seq::new(4, |i: int| trim(self.inputs@[i]@.text)),
    {
        let mut out: Vec<Vec<char>> = Vec::new();
        let mut i: usize = 0;
        while i < 4
            invariant
                i <= 4,
                self.wf(),
                views(out@) == Seq::new(i as nat, |i: int| trim(self.inputs@[i]@.text)),
            decreases 4 - i,
        {
            let ghost o0 = views(out@);
            let t: Vec<char> = trimmed(&self.inputs[i].text);
            let ghost t0 = t@;
            out.push(t);
            i += 1;
            proof {
                assert(views(out@) =~= o0.push(t0));
                assert(views(out@) =~= Seq::new(i as nat, |i: int| trim(self.inputs@[i]@.text)));
            }
        }
        out
    }

    /// The texts of the form were checked: `bad` is the first that is not
    /// an address. Whether to use them.
    pub fn static_checked(&mut self, bad: Option<usize>, now: u64) -> (r: bool)
        requires
            old(self).wf(),
            bad matches Some(i) ==> i < 3,
        ensures
            r == bad is None,
            message_of(final(self).message) == Some(
                match bad {
                    Some(i) => (
                        "\u{201c}"@ + trim(old(self).inputs@[i as int]@.text) + "\u{201d} is not a valid address"@,
                        false,
                        until(now),
                    ),
                    None => ("Network settings applied"@, true, until(now)),
                },
            ),
            final(self).panel == old(self).panel,
            final(self).knobs == old(self).knobs,
            final(self).same_lists(*old(self)),
            final(self).wf(),
    {
        match bad {
            Some(i) => {
                let mut m: Vec<char> = to_chars("\u{201c}");
                push_all(&mut m, &trimmed(&self.inputs[i].text));
                push_str(&mut m, "\u{201d} is not a valid address");
                self.flash(m, false, now);
                false
            },
            None => {
                self.flash(to_chars("Network settings applied"), true, now);
                true
            },
        }
    }

    /// Everything was set to its default.
    pub fn was_reset(&mut self, cfg: Settings, now: u64)
        requires
            old(self).wf(),
        ensures
            final(self).panel == (Panel { cfg, ..old(self).panel }),
            message_of(final(self).message) == Some(
                ("All settings were reset to their defaults"@, true, until(now)),
            ),
            final(self).knobs == old(self).knobs,
            final(self).same_lists(*old(self)),
            final(self).wf(),
    {
        self.panel.cfg = cfg;
        self.flash(to_chars("All settings were reset to their defaults"), true, now);
    }

    fn slider_to(&mut self, sl: Slider, a: Area, x: i32, live: &mut Settings) -> (r: Effect)
        requires
            old(self).wf(),
            a.small(),
            a.w >= 24,
        ensures
            (final(self).panel, *final(live), r) == old(self).panel.slid_to(*old(live), sl, a, x as int),
            final(self).knobs == old(self).knobs,
            final(self).message == old(self).message,
            final(self).same_lists(*old(self)),
            final(self).wf(),
    {
        let v: i64 = slider_value_at(sl, &a, x);
        if v != slider_value(&self.panel.cfg, sl) {
            set_slider(live, sl, v);
            self.panel.cfg = *live;
            return Effect::Live;
        }
        Effect::Nothing
    }

    fn find_hit(&self, x: i32, y: i32) -> (r: Option<(Area, Action)>)
        requires
            self.wf(),
        ensures
            r == hit(self.hits@, x as int, y as int),
            r matches Some((a, act)) ==> a.small() && (act is Slider ==> a.w >= 24) && (act matches Action::Input(k)
                ==> k < 4),
    {
        let mut n: usize = self.hits.len();
        proof {
            assert(self.hits@.take(n as int) =~= self.hits@);
        }
        while n > 0
            invariant
                n <= self.hits@.len(),
                self.wf(),
                hit(self.hits@, x as int, y as int) == hit(self.hits@.take(n as int), x as int, y as int),
            decreases n,
        {
            let h: (Area, Action) = self.hits[n - 1];
            proof {
                assert(self.hits@[n - 1] == h);
                assert(self.hits@.take(n as int).drop_last() =~= self.hits@.take(n - 1));
            }
            if h.0.has(x, y) {
                return Some(h);
            }
            n -= 1;
        }
        None
    }

    fn press(&mut self, x: i32, y: i32, live: &mut Settings, now: u64, ctx: &mut Ctx) -> (r: Effect)
        requires
            old(self).wf(),
            old(self).before(now),
        ensures
            pressed(*old(self), x as int, y as int, *old(live), now, old(ctx)@, *final(self), *final(live), r, final(ctx)@),
            final(self).same_lists(*old(self)),
            final(self).wf(),
    {
        match self.find_hit(x, y) {
            Some((a, Action::Slider(sl))) => {
                self.panel.dragging = Some((sl, a));
                let r: Effect = self.slider_to(sl, a, x, live);
                ctx.redraw();
                r
            },
            Some((_, a)) => {
                if !matches!(a, Action::Input(_)) {
                    self.panel.focused_input = None;
                }
                self.apply_action(a, live, now, ctx)
            },
            None => {
                self.panel.focused_input = None;
                ctx.redraw();
                Effect::Nothing
            },
        }
    }

    fn page_key(&mut self, k: &KeyEvent, now: u64, ctx: &mut Ctx)
        requires
            old(self).wf(),
        ensures
            ({
                let n = page_number(old(self).panel.page);
                if k.key == Key::Down {
                    final(self).panel == old(self).panel.on_page(page_of((n + 1) % 8), now) && final(ctx)@ == old(
                        ctx,
                    )@.redrawn()
                } else if k.key == Key::Up {
                    final(self).panel == old(self).panel.on_page(page_of((n + 7) % 8), now) && final(ctx)@ == old(
                        ctx,
                    )@.redrawn()
                } else {
                    final(self).panel == old(self).panel && final(ctx)@ == old(ctx)@
                }
            }),
            final(self).knobs == old(self).knobs,
            final(self).message == old(self).message,
            final(self).same_lists(*old(self)),
            final(self).wf(),
    {
        let down: bool = k.key == Key::Down;
        if !down && k.key != Key::Up {
            return;
        }
        let next: Page = match self.panel.page {
            Page::Display => if down { Page::Personalization } else { Page::About },
            Page::Personalization => if down { Page::Sound } else { Page::Display },
            Page::Sound => if down { Page::Network } else { Page::Personalization },
            Page::Network => if down { Page::Input } else { Page::Sound },
            Page::Input => if down { Page::DateTime } else { Page::Network },
            Page::DateTime => if down { Page::Storage } else { Page::Input },
            Page::Storage => if down { Page::About } else { Page::DateTime },
            Page::About => if down { Page::Display } else { Page::Storage },
        };
        self.set_page(next, now);
        ctx.redraw();
    }

    fn input_key(&mut self, i: usize, k: &KeyEvent)
        requires
            old(self).wf(),
            i < 4,
        ensures
            final(self).inputs@[i as int]@ == old(self).inputs@[i as int]@.after_key(*k).0,
            forall|j: int| 0 <= j < 4 && j != i ==> final(self).inputs@[j] == old(self).inputs@[j],
            final(self).panel == old(self).panel,
            final(self).knobs == old(self).knobs,
            final(self).message == old(self).message,
            final(self).hits == old(self).hits,
            final(self).pictures == old(self).pictures,
            final(self).disk_targets == old(self).disk_targets,
            final(self).wf(),
    {
        let mut v: Vec<TextInput> = Vec::new();
        std::mem::swap(&mut v, &mut self.inputs);
        let ghost v0 = v@;
        let mut t: TextInput = v.remove(i);
        t.key(k);
        v.insert(i, t);
        proof {
            assert forall|j: int| 0 <= j < 4 implies (#[trigger] v@[j])@.wf() by {
                if j != i {
                    assert(v@[j] == v0[j]);
                }
            }
        }
        self.inputs = v;
    }

    /// A dialog that asks whether to set up a disk was answered.
    fn setup_answered(&mut self, value: &Option<String>, ctx: &mut Ctx) -> (r: Effect)
        requires
            old(self).wf(),
        ensures
            r == match (*value, old(self).panel.pending_setup) {
                (Some(_), Some(i)) => Effect::Setup(i),
                _ => Effect::Nothing,
            },
            final(self).panel == (Panel { pending_setup: None, ..old(self).panel }),
            final(ctx)@ == old(ctx)@.redrawn(),
            final(self).knobs == old(self).knobs,
            final(self).message == old(self).message,
            final(self).same_lists(*old(self)),
            final(self).wf(),
    {
        let target: Option<usize> = self.panel.pending_setup;
        self.panel.pending_setup = None;
        ctx.redraw();
        match (value, target) {
            (Some(_), Some(i)) => Effect::Setup(i),
            _ => Effect::Nothing,
        }
    }

    /// Whether a screen mode could be set; `mode` is the one set now.
    fn resolution_answered(&mut self, ok: bool, mode: (u32, u32), now: u64, ctx: &mut Ctx)
        requires
            old(self).wf(),
        ensures
            message_of(final(self).message) == Some(
                if ok {
                    (
                        "Resolution changed to "@ + dec(mode.0 as nat) + " \u{d7} "@ + dec(mode.1 as nat),
                        true,
                        until(now),
                    )
                } else {
                    ("That resolution is not available on this display"@, false, until(now))
                },
            ),
            final(self).panel == old(self).panel,
            final(ctx)@ == old(ctx)@.redrawn(),
            final(self).knobs == old(self).knobs,
            final(self).same_lists(*old(self)),
            final(self).wf(),
    {
        if ok {
            let mut m: Vec<char> = to_chars("Resolution changed to ");
            push_dec(&mut m, mode.0 as u64);
            push_str(&mut m, " \u{d7} ");
            push_dec(&mut m, mode.1 as u64);
            self.flash(m, true, now);
        } else {
            self.flash(to_chars("That resolution is not available on this display"), false, now);
        }
        ctx.redraw();
    }

    /// An event; `mode` is the screen mode that is set, and `live` holds the
    /// settings in force.
    pub fn event(&mut self, ev: &AppEvent, mode: (u32, u32), live: &mut Settings, now: u64, ctx: &mut Ctx) -> (r: Effect)
        requires
            old(self).wf(),
            old(self).before(now),
        ensures
            handled(*old(self), *ev, mode, *old(live), now, old(ctx)@, *final(self), *final(live), r, final(ctx)@),
            final(self).wf(),
    {
        match ev {
            AppEvent::MouseMove { x, y, .. } => {
                if let Some((sl, a)) = self.panel.dragging {
                    let r: Effect = self.slider_to(sl, a, *x, live);
                    ctx.redraw();
                    return r;
                }
                let h: Option<Action> = match self.find_hit(*x, *y) {
                    Some((_, a)) => Some(a),
                    None => None,
                };
                if h != self.panel.hover {
                    self.panel.hover = h;
                    ctx.redraw();
                }
            },
            AppEvent::MouseLeave => {
                if self.panel.hover.is_some() {
                    self.panel.hover = None;
                    ctx.redraw();
                }
            },
            AppEvent::MouseDown { x, y, button, .. } => {
                if *button == 0 {
                    return self.press(*x, *y, live, now, ctx);
                }
            },
            AppEvent::MouseUp { .. } => {
                if let Some((sl, _)) = self.panel.dragging {
                    self.panel.dragging = None;
                    ctx.redraw();
                    return Effect::Keep { click: sl == Slider::Volume };
                }
            },
            AppEvent::Wheel { delta, .. } => {
                let p: Panel = self.panel;
                let content: i64 = p.bottom as i64 + p.scroll as i64 + 24;
                let m: i64 = if content - p.size.1 as i64 > 0 { content - p.size.1 as i64 } else { 0 };
                let s: i64 = crate::arith::clamp_i64(p.scroll as i64 + *delta as i64 * 40, 0, m);
                self.panel.scroll = if s < i32::MAX as i64 { s as i32 } else { i32::MAX };
                ctx.redraw();
            },
            AppEvent::Key(k) => {
                if k.pressed {
                    return self.key(k, live, now, ctx);
                }
            },
            AppEvent::Message(m) => match m {
                Msg::DialogResult { tag, value } => {
                    if *tag == TAG_SETUP_DISK {
                        return self.setup_answered(value, ctx);
                    }
                },
                Msg::ResolutionResult(ok) => self.resolution_answered(*ok, mode, now, ctx),
            },
            AppEvent::Focus(_) => ctx.redraw(),
            AppEvent::Resized { .. } => ctx.redraw(),
        }
        Effect::Nothing
    }

    fn key(&mut self, k: &KeyEvent, live: &mut Settings, now: u64, ctx: &mut Ctx) -> (r: Effect)
        requires
            old(self).wf(),
            old(self).before(now),
        ensures
            keyed(*old(self), *k, now, old(ctx)@, *final(self), r, final(ctx)@),
            *final(live) == *old(live),
            final(self).wf(),
    {
        if let Some(i) = self.panel.focused_input {
            let mut r: Effect = Effect::Nothing;
            match k.key {
                Key::Tab => self.panel.focused_input = Some((i + 1) % 4),
                Key::Enter => r = self.apply_action(Action::ApplyStatic, live, now, ctx),
                Key::Escape => self.panel.focused_input = None,
                _ => self.input_key(i, k),
            }
            ctx.redraw();
            return r;
        }
        self.page_key(k, now, ctx);
        Effect::Nothing
    }
}

pub open spec fn setup_dialog(desc: Seq<char>, erases: bool, reply_to: u32) -> DialogState {
    DialogState {
        title: "Set Up Disk"@,
        message: if erases {
            "Erase "@ + desc + " and install MayOS's files on it?"@
        } else {
            "Copy MayOS's files to "@ + desc + " and use it as the main disk? Existing files are kept."@
        },
        input: None,
        ok_label: if erases { "Erase and Set Up"@ } else { "Set Up"@ },
        cancel_label: Some("Cancel"@),
        danger: erases,
        second_is_alt: false,
        tag: TAG_SETUP_DISK,
        reply_to,
        hover: None,
        size: (400i32, 140i32),
        answered: false,
    }
}

/// The network test that an action runs.
pub open spec fn test_kind(a: Action) -> Option<u8> {
    match a {
        Action::PingGateway => Some(0u8),
        Action::PingInternet => Some(1u8),
        Action::LookupName => Some(2u8),
        _ => None,
    }
}

/// What an action does to the app `s` and to the settings in force: they
/// become `t` and `after`, and the app asks for `r`. An action that only sets
/// one setting leaves what the window shows to the next look at them.
pub open spec fn applied(
    s: SettingsApp,
    a: Action,
    live: Settings,
    now: u64,
    ctx: CtxState,
    t: SettingsApp,
    after: Settings,
    r: Effect,
    c: CtxState,
) -> bool {
    let p = s.panel;
    let quiet = t.knobs == s.knobs && t.message == s.message && c == ctx.redrawn();
    &&& !(a is Toggle) && set_by(live, a) is None ==> after == live
    &&& match a {
        Action::Page(q) => t.panel == p.on_page(q, now) && r == Effect::Nothing && quiet,
        Action::Toggle(tg) => {
            let v = !toggled(p.cfg, tg);
            let cfg = with_toggle(live, tg, v);
            let from = knob_at(if toggled(p.cfg, tg) { 1024 } else { 0 }, knob_for(s.knobs@, tg, 0), now as int);
            let rest = knobs_without(s.knobs@, tg);
            &&& after == cfg
            &&& t.panel == (Panel { cfg, ..p })
            &&& t.knobs@ == if cfg.animations || tg == Toggle::Animations {
                rest.push(Knob { toggle: tg, from: from as i64, start: now })
            } else {
                rest
            }
            &&& r == if tg == Toggle::Dhcp && v { Effect::UpdateAndUseDhcp } else { Effect::Update }
            &&& t.message == s.message
            &&& c == ctx.redrawn()
        },
        Action::Resolution(w, h) => t.panel == p && r == Effect::Nothing && t.knobs == s.knobs && t.message == s.message
            && c == ctx.with(CommandState::SetResolution(w, h)).redrawn(),
        Action::Picture(i) => t.panel == p && r == (if i < s.pictures { Effect::Picture(i) } else { Effect::Nothing })
            && quiet,
        Action::TestSound => t.panel == p && r == Effect::TestSound && quiet,
        Action::RenewDhcp => {
            &&& t.panel == p
            &&& r == Effect::UseDhcp
            &&& message_of(t.message) == Some(("Requesting a new address\u{2026}"@, true, until(now)))
            &&& t.knobs == s.knobs
            &&& c == ctx.redrawn()
        },
        Action::ApplyStatic => t.panel == p && r == Effect::CheckStatic && quiet,
        Action::Input(i) => t.panel == (Panel { focused_input: Some(i), ..p }) && r == Effect::Nothing && quiet,
        Action::ResetSettings => t.panel == p && r == Effect::Reset && quiet,
        Action::SetupDisk(i) => {
            &&& r == Effect::Nothing
            &&& t.knobs == s.knobs
            &&& t.message == s.message
            &&& if i < s.disk_targets@.len() {
                let (desc, erases) = s.disk_targets@[i as int];
                t.panel == (Panel { pending_setup: Some(i), ..p }) && c == ctx.with(
                    CommandState::OpenChild(NewWindowState::Dialog(setup_dialog(desc@, erases, ctx.window))),
                ).redrawn()
            } else {
                t.panel == p && c == ctx.redrawn()
            }
        },
        Action::Slider(_) => t.panel == p && r == Effect::Nothing && quiet,
        _ => match set_by(live, a) {
            Some(cfg) => after == cfg && t.panel == p && r == (if a is Wallpaper {
                Effect::Wallpaper
            } else {
                Effect::Update
            }) && quiet,
            None => test_kind(a) matches Some(k) && t.panel == (Panel { net_test_running: true, ..p }) && r == (
            if p.net_test_running { Effect::Nothing } else { Effect::NetTest(k) }) && quiet,
        },
    }
}

/// What a press of the left mouse button does.
pub open spec fn pressed(
    s: SettingsApp,
    x: int,
    y: int,
    live: Settings,
    now: u64,
    ctx: CtxState,
    t: SettingsApp,
    after: Settings,
    r: Effect,
    c: CtxState,
) -> bool {
    match hit(s.hits@, x, y) {
        Some((a, Action::Slider(sl))) => {
            &&& (t.panel, after, r) == (Panel { dragging: Some((sl, a)), ..s.panel }).slid_to(live, sl, a, x)
            &&& t.knobs == s.knobs
            &&& t.message == s.message
            &&& c == ctx.redrawn()
        },
        Some((_, a)) => applied(
            if a is Input { s } else { SettingsApp { panel: Panel { focused_input: None, ..s.panel }, ..s } },
            a,
            live,
            now,
            ctx,
            t,
            after,
            r,
            c,
        ),
        None => after == live && t.panel == (Panel { focused_input: None, ..s.panel }) && r == Effect::Nothing && t.knobs == s.knobs
            && t.message == s.message && c == ctx.redrawn(),
    }
}

/// What a key does.
pub open spec fn keyed(s: SettingsApp, k: KeyEvent, now: u64, ctx: CtxState, t: SettingsApp, r: Effect, c: CtxState) -> bool {
    let p = s.panel;
    let quiet = t.knobs == s.knobs && t.message == s.message;
    match p.focused_input {
        Some(i) => {
            &&& c == ctx.redrawn()
            &&& quiet
            &&& if k.key == Key::Tab {
                t.panel == (Panel { focused_input: Some(((i + 1) % 4) as usize), ..p }) && r == Effect::Nothing
                    && t.same_lists(s)
            } else if k.key == Key::Enter {
                t.panel == p && r == Effect::CheckStatic && t.same_lists(s)
            } else if k.key == Key::Escape {
                t.panel == (Panel { focused_input: None, ..p }) && r == Effect::Nothing && t.same_lists(s)
            } else {
                t.panel == p && r == Effect::Nothing && t.inputs@[i as int]@ == s.inputs@[i as int]@.after_key(k).0
                    && t.hits == s.hits && t.pictures == s.pictures && t.disk_targets == s.disk_targets && t.inputs@.len()
                    == s.inputs@.len() && forall|j: int| 0 <= j < 4 && j != i ==> t.inputs@[j] == s.inputs@[j]
            }
        },
        None => {
            let n = page_number(p.page);
            &&& r == Effect::Nothing
            &&& quiet
            &&& t.same_lists(s)
            &&& if k.key == Key::Down {
                t.panel == p.on_page(page_of((n + 1) % 8), now) && c == ctx.redrawn()
            } else if k.key == Key::Up {
                t.panel == p.on_page(page_of((n + 7) % 8), now) && c == ctx.redrawn()
            } else {
                t.panel == p && c == ctx
            }
        },
    }
}

/// What an event does to the app `s`: it becomes `t`, and asks for `r`.
pub open spec fn handled(
    s: SettingsApp,
    ev: AppEvent,
    mode: (u32, u32),
    live: Settings,
    now: u64,
    ctx: CtxState,
    t: SettingsApp,
    after: Settings,
    r: Effect,
    c: CtxState,
) -> bool {
    let p = s.panel;
    let quiet = t.knobs == s.knobs && t.message == s.message && t.same_lists(s);
    let nothing = t.panel == p && r == Effect::Nothing && c == ctx && quiet;
    &&& !(ev is MouseMove || ev is MouseDown) ==> after == live
    &&& match ev {
        AppEvent::MouseMove { x, y, .. } => match p.dragging {
            Some((sl, a)) => (t.panel, after, r) == p.slid_to(live, sl, a, x as int) && c == ctx.redrawn() && quiet,
            None => {
                let h = match hit(s.hits@, x as int, y as int) {
                    Some((_, a)) => Some(a),
                    None => None,
                };
                &&& after == live
                &&& if h != p.hover {
                    t.panel == (Panel { hover: h, ..p }) && r == Effect::Nothing && c == ctx.redrawn() && quiet
                } else {
                    nothing
                }
            },
        },
        AppEvent::MouseLeave => if p.hover is Some {
            t.panel == (Panel { hover: None, ..p }) && r == Effect::Nothing && c == ctx.redrawn() && quiet
        } else {
            nothing
        },
        AppEvent::MouseDown { x, y, button, .. } => if button == 0 {
            pressed(s, x as int, y as int, live, now, ctx, t, after, r, c) && t.same_lists(s)
        } else {
            after == live && nothing
        },
        AppEvent::MouseUp { .. } => match p.dragging {
            Some((sl, _)) => t.panel == (Panel { dragging: None, ..p }) && r == (Effect::Keep {
                click: sl == Slider::Volume,
            }) && c == ctx.redrawn() && quiet,
            None => nothing,
        },
        AppEvent::Wheel { delta, .. } => {
            &&& t.panel == p.wheeled(delta as int)
            &&& r == Effect::Nothing
            &&& c == ctx.redrawn()
            &&& quiet
        },
        AppEvent::Key(k) => if k.pressed { keyed(s, k, now, ctx, t, r, c) } else { nothing },
        AppEvent::Message(m) => match m {
            Msg::DialogResult { tag, value } => if tag == TAG_SETUP_DISK {
                &&& r == match (value, p.pending_setup) {
                    (Some(_), Some(i)) => Effect::Setup(i),
                    _ => Effect::Nothing,
                }
                &&& t.panel == (Panel { pending_setup: None, ..p })
                &&& c == ctx.redrawn()
                &&& quiet
            } else {
                nothing
            },
            Msg::ResolutionResult(ok) => {
                &&& message_of(t.message) == Some(
                    if ok {
                        (
                            "Resolution changed to "@ + dec(mode.0 as nat) + " \u{d7} "@ + dec(mode.1 as nat),
                            true,
                            until(now),
                        )
                    } else {
                        ("That resolution is not available on this display"@, false, until(now))
                    },
                )
                &&& t.panel == p
                &&& r == Effect::Nothing
                &&& c == ctx.redrawn()
                &&& t.knobs == s.knobs
                &&& t.same_lists(s)
            },
        },
        AppEvent::Focus(_) => t.panel == p && r == Effect::Nothing && c == ctx.redrawn() && quiet,
        AppEvent::Resized { .. } => t.panel == p && r == Effect::Nothing && c == ctx.redrawn() && quiet,
    }
}

/// A setting that was changed elsewhere is not lost: an action that only sets
/// one setting keeps all others as they are in force.
pub proof fn lemma_others_kept(live: Settings, a: Action, t: Toggle, sl: Slider)
    requires
        set_by(live, a) is Some,
    ensures
        toggled(set_by(live, a)->0, t) == toggled(live, t),
        slid(set_by(live, a)->0, sl) == slid(live, sl),
        !(a is Wallpaper) ==> set_by(live, a)->0.wallpaper == live.wallpaper,
        !(a is Accent) ==> set_by(live, a)->0.accent == live.accent,
        !(a is DockPosition) ==> set_by(live, a)->0.dock_position == live.dock_position,
        !(a is DockSize) ==> set_by(live, a)->0.dock_size == live.dock_size,
        !(a is TzMinus || a is TzPlus) ==> set_by(live, a)->0.tz_offset_min == live.tz_offset_min,
{
}

/// No disk is set up without its dialog having been accepted.
pub proof fn lemma_setup_confirmed(
    s: SettingsApp,
    ev: AppEvent,
    mode: (u32, u32),
    live: Settings,
    now: u64,
    ctx: CtxState,
    t: SettingsApp,
    after: Settings,
    i: usize,
    c: CtxState,
)
    requires
        handled(s, ev, mode, live, now, ctx, t, after, Effect::Setup(i), c),
    ensures
        s.panel.pending_setup == Some(i),
        ev matches AppEvent::Message(Msg::DialogResult { tag, value }) && tag == TAG_SETUP_DISK && value is Some,
{
}

impl SettingsApp {
    /// As time goes by: the settings may have been changed elsewhere
    /// (`cfg`), and a network test may have ended. A running disk setup
    /// refreshes the live pages more often.
    pub fn tick(&mut self, cfg: Option<Settings>, test_done: bool, setup_running: bool, now: u64, ctx: &mut Ctx)
        requires
            old(self).wf(),
            old(self).before(now),
        ensures
            ({
                let s = *old(self);
                let p0 = s.panel;
                let p1 = match cfg {
                    Some(x) => Panel { cfg: x, ..p0 },
                    None => p0,
                };
                let moving = p0.animating(s.knobs@, now as int);
                let p2 = if moving { p1 } else { Panel { page_since: 0, ..p1 } };
                let ended = p0.net_test_running && test_done;
                let p3 = if ended { Panel { net_test_running: false, ..p2 } } else { p2 };
                let over = s.message matches Some((_, _, u)) && now > u;
                let fresh = p0.is_live() && now - p0.last_refresh >= (if setup_running { 250int } else { 1000 });
                &&& final(self).panel == if fresh { Panel { last_refresh: now, ..p3 } } else { p3 }
                &&& final(self).knobs@ == if moving { s.knobs@ } else { Seq::empty() }
                &&& final(self).message == if over { None } else { s.message }
                &&& final(ctx)@ == if cfg is Some || moving || p0.page_since != 0 || ended || over || fresh {
                    old(ctx)@.redrawn()
                } else {
                    old(ctx)@
                }
            }),
            final(self).same_lists(*old(self)),
            final(self).wf(),
    {
        if let Some(x) = cfg {
            self.panel.cfg = x;
            ctx.redraw();
        }
        if self.is_animating(now) {
            ctx.redraw();
        } else {
            self.knobs = Vec::new();
            proof {
                assert(self.knobs@ =~= Seq::<Knob>::empty());
            }
            if self.panel.page_since != 0 {
                self.panel.page_since = 0;
                ctx.redraw();
            }
        }
        if self.panel.net_test_running && test_done {
            self.panel.net_test_running = false;
            ctx.redraw();
        }
        let over: bool = match &self.message {
            Some(m) => now > m.2,
            None => false,
        };
        if over {
            self.message = None;
            ctx.redraw();
        }
        let wait: u64 = if setup_running { 250 } else { 1000 };
        let live: bool = match self.panel.page {
            Page::Network => true,
            Page::DateTime => true,
            Page::About => true,
            Page::Storage => true,
            _ => false,
        };
        if live && now - self.panel.last_refresh >= wait {
            self.panel.last_refresh = now;
            ctx.redraw();
        }
    }

    pub fn is_animating(&self, now: u64) -> (r: bool)
        requires
            self.wf(),
            self.before(now),
        ensures
            r == self.panel.animating(self.knobs@, now as int),
    {
        let mut i: usize = 0;
        while i < self.knobs.len()
            invariant
                i <= self.knobs@.len(),
                self.before(now),
                forall|k: int| 0 <= k < i ==> now - (#[trigger] self.knobs@[k]).start >= TOGGLE_MS + 20,
            decreases self.knobs@.len() - i,
        {
            if now - self.knobs[i].start < TOGGLE_MS + 20 {
                return true;
            }
            i += 1;
        }
        self.panel.page_since != 0 && now - self.panel.page_since < PAGE_MS + 20
    }
}

} // verus!
