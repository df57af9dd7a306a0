//! The window of the web browser.

use super::history::{copy_address, Address, AddressState, History, HistoryState};
use crate::arith::{clamp, clamp_i64, div, max, max_i64, tdiv};
use crate::gui::app::AppEvent;
use crate::gui::geom::Area;
use crate::gui::widgets::{TextInput, TextInputState};
use crate::input::{Key, KeyEvent};
use crate::text::{copy, is_white, is_white_char, push_all, push_str, same, to_chars, to_text};
use vstd::prelude::*;

verus! {

pub const BAR_H: i32 = 46;
pub const STATUS_H: i32 = 22;

/// A link on the page, and where.
pub struct Link {
    pub x: i32,
    pub y: i32,
    pub w: i32,
    pub h: i32,
    pub href: Vec<char>,
}

#[verifier::ext_equal]
pub struct LinkState {
    pub x: i32,
    pub y: i32,
    pub w: i32,
    pub h: i32,
    pub href: Seq<char>,
}

impl View for Link {
    type V = LinkState;

    open spec fn view(&self) -> LinkState {
        LinkState { x: self.x, y: self.y, w: self.w, h: self.h, href: self.href@ }
    }
}

impl LinkState {
    /// Whether a point of the page is on the link.
    pub open spec fn is_at(self, px: int, py: int) -> bool {
        self.x <= px < self.x + self.w && self.y <= py < self.y + max(self.h as int, 1)
    }
}

pub open spec fn links_of(v: Seq<Link>) -> Seq<LinkState> {
    Seq::new(v.len(), |i: int| v[i]@)
}

/// The topmost link at a point of the page: the last one in the list.
pub open spec fn link_on(v: Seq<LinkState>, px: int, py: int) -> Option<Seq<char>>
    decreases v.len(),
{
    if v.len() == 0 {
        None
    } else if v.last().is_at(px, py) {
        Some(v.last().href)
    } else {
        link_on(v.drop_last(), px, py)
    }
}

/// What the browser asks for.
pub enum Effect {
    Nothing,
    /// Stop loading.
    Stop,
    /// Stop loading, and load a page.
    Load(Address),
    /// Show the browser's own page, with `show_home`.
    Home,
    /// Go to what the user typed.
    Go(Vec<char>),
    /// Follow a link, from the page that is shown.
    Follow(Vec<char>),
}

pub enum EffectState {
    Nothing,
    Stop,
    Load(AddressState),
    Home,
    Go(Seq<char>),
    Follow(Seq<char>),
}

impl View for Effect {
    type V = EffectState;

    open spec fn view(&self) -> EffectState {
        match *self {
            Effect::Nothing => EffectState::Nothing,
            Effect::Stop => EffectState::Stop,
            Effect::Load(a) => EffectState::Load(a@),
            Effect::Home => EffectState::Home,
            Effect::Go(t) => EffectState::Go(t@),
            Effect::Follow(t) => EffectState::Follow(t@),
        }
    }
}

/// The browser's numbers.
#[derive(Clone, Copy)]
pub struct Tab {
    pub editing: bool,
    pub loading: bool,
    pub scroll: i64,
    pub size: (i32, i32),
    pub hover_btn: Option<u8>,
    pub dragging_scrollbar: bool,
    /// How high the page is, once it is laid out.
    pub height: Option<i32>,
}

impl Tab {
    pub open spec fn wf(self) -> bool {
        0 <= self.scroll <= 0x2_0000_0000
    }

    pub open spec fn content(self) -> Area {
        Area {
            x: 0,
            y: BAR_H as i64,
            w: (self.size.0 - 12) as i64,
            h: (self.size.1 - BAR_H - STATUS_H) as i64,
        }
    }

    pub open spec fn address_area(self) -> Area {
        Area { x: 142, y: 8, w: (self.size.0 - 150) as i64, h: 30 }
    }

    pub open spec fn page_height(self) -> int {
        match self.height {
            Some(h) => h as int,
            None => 0,
        }
    }

    pub open spec fn scroll_limit(self) -> int {
        max(self.page_height() - self.content().h, 0)
    }

    pub open spec fn scrolled_to(self, v: int) -> Tab {
        Tab { scroll: clamp(v, 0, self.scroll_limit()) as i64, ..self }
    }

    /// Where the page goes when the scroll bar is dragged to `y`.
    pub open spec fn drag_target(self, y: int) -> int {
        let r = self.content();
        let total = max(
            match self.height {
                Some(h) => h as int,
                None => 1,
            },
            1,
        );
        tdiv((y - r.y) * total, max(r.h as int, 1)) - tdiv(r.h as int, 2)
    }

    pub open spec fn btn_area(i: int) -> Area {
        Area { x: (8 + 32 * i) as i64, y: 8, w: 30, h: 30 }
    }

    /// The button at a point: back, forward, reload or home.
    pub open spec fn btn_at(x: int, y: int) -> Option<u8> {
        if Self::btn_area(0).spec_has(x, y) {
            Some(0)
        } else if Self::btn_area(1).spec_has(x, y) {
            Some(1)
        } else if Self::btn_area(2).spec_has(x, y) {
            Some(2)
        } else if Self::btn_area(3).spec_has(x, y) {
            Some(3)
        } else {
            None
        }
    }

    pub fn content_rect(&self) -> (r: Area)
        ensures
            r == self.content(),
            r.small(),
    {
        Area {
            x: 0,
            y: BAR_H as i64,
            w: self.size.0 as i64 - 12,
            h: self.size.1 as i64 - BAR_H as i64 - STATUS_H as i64,
        }
    }

    pub fn address_rect(&self) -> (r: Area)
        ensures
            r == self.address_area(),
            r.small(),
    {
        Area { x: 142, y: 8, w: self.size.0 as i64 - 150, h: 30 }
    }

    pub fn max_scroll(&self) -> (r: i64)
        ensures
            r == self.scroll_limit(),
            0 <= r <= 0x2_0000_0000,
    {
        let h: i32 = match self.height {
            Some(h) => h,
            None => 0,
        };
        max_i64(h as i64 - self.content_rect().h, 0)
    }

    /// Scroll to a place, as far as the page goes.
    pub fn scroll_to(&mut self, v: i64)
        ensures
            *final(self) == old(self).scrolled_to(v as int),
            final(self).wf(),
    {
        let m: i64 = self.max_scroll();
        self.scroll = clamp_i64(v, 0, m);
    }

    pub fn btn_rect(i: u8) -> (r: Area)
        requires
            i < 4,
        ensures
            r == Self::btn_area(i as int),
            r.small(),
    {
        Area { x: 8 + 32 * i as i64, y: 8, w: 30, h: 30 }
    }

    pub fn button_at(x: i32, y: i32) -> (r: Option<u8>)
        ensures
            r == Self::btn_at(x as int, y as int),
    {
        if Self::btn_rect(0).has(x, y) {
            Some(0)
        } else if Self::btn_rect(1).has(x, y) {
            Some(1)
        } else if Self::btn_rect(2).has(x, y) {
            Some(2)
        } else if Self::btn_rect(3).has(x, y) {
            Some(3)
        } else {
            None
        }
    }

    fn drag_place(&self, y: i32) -> (r: i64)
        ensures
            r == self.drag_target(y as int),
    {
        let c: Area = self.content_rect();
        let total: i64 = max_i64(
            match self.height {
                Some(h) => h as i64,
                None => 1,
            },
            1,
        );
        let dy: i64 = y as i64 - c.y;
        proof {
            assert(-0x8000_0100 * 0x8000_0000 <= dy * total <= 0x8000_0100 * 0x8000_0000) by (nonlinear_arith)
                requires
                    -0x8000_0100 <= dy <= 0x8000_0100,
                    0 <= total <= 0x8000_0000,
            ;
        }
        let h: i64 = max_i64(c.h, 1);
        let q: i64 = div(dy * total, h);
        proof {
            crate::arith::lemma_tdiv_bounds(dy * total, h as int);
        }
        q - div(c.h, 2)
    }
}

/// Dragging the scroll bar, like everything else, leaves the page in view.
pub proof fn lemma_scroll_in_page(t: Tab, v: int)
    ensures
        0 <= t.scrolled_to(v).scroll <= t.scroll_limit(),
        t.scrolled_to(v).wf(),
        t.scrolled_to(v).scrolled_to(t.scrolled_to(v).scroll as int) == t.scrolled_to(v),
{
}

pub struct Browser {
    pub tab: Tab,
    pub address: TextInput,
    pub history: History,
    pub title: Vec<char>,
    pub status: Vec<char>,
    pub error: Option<Vec<char>>,
    pub hover_link: Option<Vec<char>>,
    pub links: Vec<Link>,
}

#[verifier::ext_equal]
pub struct BrowserState {
    pub tab: Tab,
    pub address: TextInputState,
    pub history: HistoryState,
    pub title: Seq<char>,
    pub status: Seq<char>,
    pub error: Option<Seq<char>>,
    pub hover_link: Option<Seq<char>>,
    pub links: Seq<LinkState>,
}

/// What to do after a look at the load.
#[derive(Clone, Copy, Debug, PartialEq, Eq, Structural)]
pub struct Tick {
    /// Lay the page out again.
    pub layout: bool,
    pub redraw: bool,
    /// Draw the address again, with its progress.
    pub progress: bool,
}

pub open spec fn result_of(
    r: Option<Result<(Address, Option<Vec<char>>), Vec<char>>>,
) -> Option<Result<(AddressState, Option<Seq<char>>), Seq<char>>> {
    match r {
        Some(Ok((url, title))) => Some(Ok((url@, opt_chars(title)))),
        Some(Err(e)) => Some(Err(e@)),
        None => None,
    }
}

pub open spec fn opt_chars(o: Option<Vec<char>>) -> Option<Seq<char>> {
    match o {
        Some(v) => Some(v@),
        None => None,
    }
}

impl View for Browser {
    type V = BrowserState;

    open spec fn view(&self) -> BrowserState {
        BrowserState {
            tab: self.tab,
            address: self.address@,
            history: self.history@,
            title: self.title@,
            status: self.status@,
            error: opt_chars(self.error),
            hover_link: opt_chars(self.hover_link),
            links: links_of(self.links@),
        }
    }
}

pub open spec fn connecting(a: AddressState) -> Seq<char> {
    "Connecting to "@ + (if a.host.len() == 0 { "disk"@ } else { a.host }) + "\u{2026}"@
}

/// White space within a title is one blank, and none stands at its ends.
pub open spec fn squeezed(s: Seq<char>) -> Seq<char>
    decreases s.len(),
{
    if s.len() == 0 {
        Seq::empty()
    } else {
        let d = s.drop_last();
        let r = squeezed(d);
        if is_white(s.last()) {
            r
        } else if d.len() > 0 && is_white(d.last()) && r.len() > 0 {
            r.push(' ').push(s.last())
        } else {
            r.push(s.last())
        }
    }
}

/// The title of a page: what it says, or else its address.
pub open spec fn title_for(found: Option<Seq<char>>, url: Seq<char>) -> Seq<char> {
    match found {
        Some(t) => if squeezed(t).len() > 0 { squeezed(t) } else { url },
        None => url,
    }
}

/// The browser's own page.
pub open spec fn home_address() -> AddressState {
    AddressState { text: "about:home"@, host: Seq::empty(), about: true }
}

impl BrowserState {
    pub open spec fn wf(self) -> bool {
        self.tab.wf() && self.address.wf()
    }

    /// On the way to a page.
    pub open spec fn heading_for(self, a: AddressState) -> BrowserState {
        BrowserState {
            tab: Tab { editing: false, loading: true, ..self.tab },
            address: TextInputState::initial(a.text),
            status: connecting(a),
            error: None,
            ..self
        }
    }

    pub open spec fn navigated(self, a: AddressState, record: bool) -> BrowserState {
        BrowserState { history: self.history.visited(a, record), ..self }.heading_for(a)
    }

    pub open spec fn back(self) -> (BrowserState, EffectState) {
        if self.history.back.len() == 0 {
            (self, EffectState::Nothing)
        } else {
            let a = self.history.back.last();
            (
                BrowserState { history: self.history.gone_back(), ..self }.heading_for(a),
                EffectState::Load(a),
            )
        }
    }

    pub open spec fn forward(self) -> (BrowserState, EffectState) {
        if self.history.forward.len() == 0 {
            (self, EffectState::Nothing)
        } else {
            let a = self.history.forward.last();
            (
                BrowserState { history: self.history.gone_forward(), ..self }.heading_for(a),
                EffectState::Load(a),
            )
        }
    }

    pub open spec fn reloaded(self) -> (BrowserState, EffectState) {
        match self.history.leaving() {
            Some(a) => (self.heading_for(a), EffectState::Load(a)),
            None => (self, EffectState::Nothing),
        }
    }

    /// With another document.
    pub open spec fn showing(self, a: AddressState, title: Option<Seq<char>>) -> BrowserState {
        BrowserState {
            title: title_for(title, a.text),
            history: self.history.at(a),
            links: Seq::empty(),
            tab: Tab { height: None, scroll: 0, ..self.tab },
            ..self
        }
    }

    pub open spec fn at_home(self, title: Option<Seq<char>>) -> BrowserState {
        let s = self.showing(home_address(), title);
        BrowserState {
            address: TextInputState::initial(""@),
            tab: Tab { editing: true, loading: false, ..s.tab },
            ..s
        }
    }

    pub open spec fn laid_out(self, height: i32, links: Seq<LinkState>) -> BrowserState {
        let t = Tab { height: Some(height), ..self.tab };
        BrowserState { links, tab: t.scrolled_to(t.scroll as int), ..self }
    }

    /// The link at a point of the window.
    pub open spec fn link_under(self, x: int, y: int) -> Option<Seq<char>> {
        let c = self.tab.content();
        if self.tab.height is Some && c.spec_has(x, y) {
            link_on(self.links, x, y - c.y + self.tab.scroll)
        } else {
            None
        }
    }

    pub open spec fn moved(self, x: int, y: int, buttons: u8, link: Option<Seq<char>>) -> (BrowserState, bool) {
        if self.tab.dragging_scrollbar && buttons & 1 != 0 {
            (BrowserState { tab: self.tab.scrolled_to(self.tab.drag_target(y)), ..self }, true)
        } else {
            let btn = Tab::btn_at(x, y);
            (
                BrowserState { hover_link: link, tab: Tab { hover_btn: btn, ..self.tab }, ..self },
                link != self.hover_link || btn != self.tab.hover_btn,
            )
        }
    }

    pub open spec fn pressed(self, x: int, y: int) -> (BrowserState, EffectState) {
        if self.tab.address_area().spec_has(x, y) {
            if self.tab.editing {
                (self, EffectState::Nothing)
            } else {
                (self.edited(), EffectState::Nothing)
            }
        } else {
            let s = BrowserState { tab: Tab { editing: false, ..self.tab }, ..self };
            let c = self.tab.content();
            match Tab::btn_at(x, y) {
                Some(b) => if b == 0 {
                    s.back()
                } else if b == 1 {
                    s.forward()
                } else if b == 2 {
                    if s.tab.loading {
                        (s.stopped(), EffectState::Stop)
                    } else {
                        s.reloaded()
                    }
                } else {
                    (s, EffectState::Home)
                },
                None => if x >= c.x + c.w && c.y <= y < c.y + c.h {
                    (
                        BrowserState { tab: Tab { dragging_scrollbar: true, ..s.tab }, ..s },
                        EffectState::Nothing,
                    )
                } else {
                    match s.link_under(x, y) {
                        Some(href) => (s, EffectState::Follow(href)),
                        None => (s, EffectState::Nothing),
                    }
                },
            }
        }
    }

    /// With the address bar ready to be typed over.
    pub open spec fn edited(self) -> BrowserState {
        BrowserState {
            tab: Tab { editing: true, ..self.tab },
            address: TextInputState { all_selected: true, ..self.address },
            ..self
        }
    }

    pub open spec fn stopped(self) -> BrowserState {
        BrowserState { tab: Tab { loading: false, ..self.tab }, status: Seq::empty(), ..self }
    }

    /// A key while the address is edited.
    pub open spec fn edit_key(self, k: KeyEvent) -> (BrowserState, EffectState) {
        match k.key {
            Key::Enter => (self, EffectState::Go(self.address.text)),
            Key::Escape => {
                let s = BrowserState { tab: Tab { editing: false, ..self.tab }, ..self };
                (
                    match self.history.url {
                        Some(u) => BrowserState { address: TextInputState::initial(u.text), ..s },
                        None => s,
                    },
                    EffectState::Nothing,
                )
            },
            _ => (BrowserState { address: self.address.after_key(k).0, ..self }, EffectState::Nothing),
        }
    }

    /// A key that moves the page: where it goes.
    pub open spec fn scroll_key(self, k: Key) -> Option<int> {
        let at = self.tab.scroll as int;
        let view = self.tab.content().h as int;
        match k {
            Key::Down => Some(at + 40),
            Key::Up => Some(at - 40),
            Key::PageDown => Some(at + view - 40),
            Key::Char(c) => if c == ' ' { Some(at + view - 40) } else { None },
            Key::PageUp => Some(at - (view - 40)),
            Key::Home => Some(0),
            Key::End => Some(self.tab.scroll_limit()),
            _ => None,
        }
    }

    /// A key that does something else than to move the page.
    pub open spec fn page_key(self, k: KeyEvent) -> Option<(BrowserState, EffectState)> {
        match k.key {
            Key::Left => if k.alt { Some(self.back()) } else { None },
            Key::Right => if k.alt { Some(self.forward()) } else { None },
            Key::Backspace => Some(self.back()),
            Key::F(n) => if n == 5 { Some(self.reloaded()) } else { None },
            Key::Char(c) => if c == 'l' && k.ctrl { Some((self.edited(), EffectState::Nothing)) } else { None },
            _ => None,
        }
    }

    pub open spec fn clamped(self) -> BrowserState {
        BrowserState { tab: self.tab.scrolled_to(self.tab.scroll as int), ..self }
    }

    /// A key press: the browser after it, what is to be done, and whether
    /// to draw the window again.
    pub open spec fn keyed(self, k: KeyEvent) -> (BrowserState, EffectState, bool) {
        if self.tab.editing {
            let (s, e) = self.edit_key(k);
            (s, e, true)
        } else {
            match self.scroll_key(k.key) {
                Some(v) => (
                    BrowserState { tab: self.tab.scrolled_to(v), ..self },
                    EffectState::Nothing,
                    true,
                ),
                None => match self.page_key(k) {
                    Some((s, e)) => (s.clamped(), e, true),
                    None => (self, EffectState::Nothing, false),
                },
            }
        }
    }

    /// An event; `link` is the address of the link under the pointer.
    pub open spec fn after(self, ev: AppEvent, link: Option<Seq<char>>) -> (BrowserState, EffectState, bool) {
        match ev {
            AppEvent::MouseMove { x, y, buttons } => {
                let (s, redraw) = self.moved(x as int, y as int, buttons, link);
                (s, EffectState::Nothing, redraw)
            },
            AppEvent::MouseUp { .. } => (
                BrowserState { tab: Tab { dragging_scrollbar: false, ..self.tab }, ..self },
                EffectState::Nothing,
                false,
            ),
            AppEvent::MouseDown { x, y, button, .. } => if button == 0 {
                let (s, e) = self.pressed(x as int, y as int);
                (s, e, true)
            } else {
                (self, EffectState::Nothing, false)
            },
            AppEvent::Wheel { delta, .. } => (
                BrowserState { tab: self.tab.scrolled_to(self.tab.scroll + delta * 60), ..self },
                EffectState::Nothing,
                true,
            ),
            AppEvent::Key(k) => if k.pressed { self.keyed(k) } else { (self, EffectState::Nothing, false) },
            AppEvent::Focus(_) => (self, EffectState::Nothing, true),
            AppEvent::Resized { .. } => (self, EffectState::Nothing, true),
            _ => (self, EffectState::Nothing, false),
        }
    }

    /// After a look at the load.
    pub open spec fn ticked(
        self,
        result: Option<Result<(AddressState, Option<Seq<char>>), Seq<char>>>,
        images: bool,
        status: Seq<char>,
    ) -> (BrowserState, Tick) {
        let s = match result {
            Some(Ok((url, title))) => self.loaded(url, title),
            Some(Err(e)) => self.failed(e),
            None => self,
        };
        let new_page = result matches Some(Ok(_));
        (
            BrowserState { status, ..s },
            Tick {
                layout: images || new_page,
                redraw: images || result is Some || status != s.status,
                progress: s.tab.loading,
            },
        )
    }

    pub open spec fn loaded(self, a: AddressState, title: Option<Seq<char>>) -> BrowserState {
        let s = BrowserState {
            tab: Tab { loading: false, ..self.tab },
            address: TextInputState::initial(a.text),
            ..self
        };
        s.showing(a, title)
    }

    pub open spec fn failed(self, e: Seq<char>) -> BrowserState {
        BrowserState { tab: Tab { loading: false, ..self.tab }, error: Some(e), ..self }
    }

    /// What the status bar says: where the link under the pointer leads,
    /// or how the loading gets on.
    pub open spec fn message(self) -> Seq<char> {
        match self.hover_link {
            Some(l) => l,
            None => self.status,
        }
    }
}

/// A page that is left with a link and gone back to is loaded again.
pub proof fn lemma_follow_and_back(s: BrowserState, a: AddressState)
    requires
        s.history.leaving() is Some,
    ensures
        s.navigated(a, true).back().1 == EffectState::Load(s.history.leaving()->0),
        s.navigated(a, true).back().0.address.text == s.history.leaving()->0.text,
{
}

/// However the browser is used, the page stays in view.
pub proof fn lemma_stays_in_view(s: BrowserState, ev: AppEvent, link: Option<Seq<char>>)
    requires
        s.wf(),
        s.tab.scroll <= s.tab.scroll_limit(),
    ensures
        0 <= s.after(ev, link).0.tab.scroll <= s.after(ev, link).0.tab.scroll_limit(),
{
}

/// The link at a point of the page is the last of those that are there.
pub proof fn lemma_topmost_link(v: Seq<LinkState>, px: int, py: int)
    ensures
        match link_on(v, px, py) {
            Some(href) => exists|i: int|
                0 <= i < v.len() && (#[trigger] v[i]).is_at(px, py) && v[i].href == href && forall|k: int|
                    i < k < v.len() ==> !(#[trigger] v[k]).is_at(px, py),
            None => forall|i: int| 0 <= i < v.len() ==> !(#[trigger] v[i]).is_at(px, py),
        },
    decreases v.len(),
{
    if v.len() > 0 {
        let d = v.drop_last();
        if v.last().is_at(px, py) {
            assert(v[v.len() - 1].is_at(px, py));
        } else {
            lemma_topmost_link(d, px, py);
            match link_on(v, px, py) {
                Some(href) => {
                    let i = choose|i: int|
                        0 <= i < d.len() && (#[trigger] d[i]).is_at(px, py) && d[i].href == href && forall|k: int|
                            i < k < d.len() ==> !(#[trigger] d[k]).is_at(px, py);
                    assert(v[i] == d[i]);
                    assert forall|k: int| i < k < v.len() implies !(#[trigger] v[k]).is_at(px, py) by {
                        if k < d.len() {
                            assert(v[k] == d[k]);
                        }
                    }
                },
                None => {
                    assert forall|i: int| 0 <= i < v.len() implies !(#[trigger] v[i]).is_at(px, py) by {
                        if i < d.len() {
                            assert(v[i] == d[i]);
                        }
                    }
                },
            }
        }
    }
}

/// A press where a link is shown follows that link: scrolling moves the links
/// with the page.
pub proof fn lemma_link_follows_page(s: BrowserState, i: int, x: int, y: int)
    requires
        0 <= i < s.links.len(),
        s.tab.height is Some,
        s.links[i].is_at(x, y - BAR_H + s.tab.scroll),
        forall|k: int| i < k < s.links.len() ==> !(#[trigger] s.links[k]).is_at(x, y - BAR_H + s.tab.scroll),
        0 <= x < s.tab.size.0 - 12,
        BAR_H <= y < s.tab.size.1 - STATUS_H,
    ensures
        s.pressed(x, y).1 == EffectState::Follow(s.links[i].href),
        !s.pressed(x, y).0.tab.editing,
        s.pressed(x, y).0.history == s.history,
{
    let py = y - BAR_H + s.tab.scroll;
    lemma_topmost_link(s.links, x, py);
    match link_on(s.links, x, py) {
        Some(href) => {
            let k = choose|k: int|
                0 <= k < s.links.len() && (#[trigger] s.links[k]).is_at(x, py) && s.links[k].href == href && forall|
                    j: int,
                |
                    k < j < s.links.len() ==> !(#[trigger] s.links[j]).is_at(x, py);
            if k < i {
                assert(!s.links[i].is_at(x, py));
            } else if i < k {
                assert(!s.links[k].is_at(x, py));
            }
        },
        None => {
            assert(s.links[i].is_at(x, py));
        },
    }
}

/// Down and Up move the page by the same way in opposite directions, and so
/// do PageDown and PageUp; Home and End show its two ends.
pub proof fn lemma_scroll_keys(s: BrowserState)
    requires
        s.wf(),
        0 <= s.tab.scroll <= s.tab.scroll_limit(),
    ensures
        ({
            let down = s.tab.scrolled_to(s.scroll_key(Key::Down)->0);
            let page = s.tab.scrolled_to(s.scroll_key(Key::PageDown)->0);
            let limit = s.tab.scroll_limit();
            let view = s.tab.content().h;
            &&& s.tab.scroll + 40 <= limit ==> down.scroll > s.tab.scroll && (BrowserState {
                tab: down,
                ..s
            }).scroll_key(Key::Up) == Some(s.tab.scroll as int)
            &&& view > 40 && s.tab.scroll + view <= limit ==> page.scroll > s.tab.scroll && page.scroll < s.tab.scroll
                + view && (BrowserState { tab: page, ..s }).scroll_key(Key::PageUp) == Some(s.tab.scroll as int)
            &&& s.tab.scrolled_to(s.scroll_key(Key::Home)->0).scroll == 0
            &&& s.tab.scrolled_to(s.scroll_key(Key::End)->0).scroll == limit
            &&& s.tab.height matches Some(h) ==> h >= view ==> limit + view == h
        }),
{
}

/// A page that has come is shown from its top, with its address in the bar
/// and its title; one that has not leaves the page and its address as they
/// are.
pub proof fn lemma_page_shown(s: BrowserState, a: AddressState, title: Option<Seq<char>>, e: Seq<char>)
    ensures
        ({
            let n = s.loaded(a, title);
            &&& n.history.url == Some(a)
            &&& n.address.text == a.text
            &&& n.tab.scroll == 0
            &&& !n.tab.loading
            &&& n.history.back == s.history.back
            &&& n.history.forward == s.history.forward
        }),
        ({
            let n = s.failed(e);
            &&& n.history == s.history
            &&& n.address == s.address
            &&& n.links == s.links
            &&& n.error == Some(e)
            &&& !n.tab.loading
        }),
{
}

/// Escape while the address is edited puts back the address of the page;
/// Enter goes to what stands there.
pub proof fn lemma_edit_ends(s: BrowserState, k: KeyEvent, u: AddressState)
    requires
        s.history.url == Some(u),
    ensures
        k.key == Key::Escape ==> s.edit_key(k).0.address.text == u.text && !s.edit_key(k).0.tab.editing && (s.edit_key(
            k,
        ).1 is Nothing),
        k.key == Key::Enter ==> s.edit_key(k).1 == EffectState::Go(s.address.text),
{
}

/// Squeezing a title takes out white space only: every other character is
/// kept, in order. No white space is left at the ends, and of what is left
/// inside no two stand together.
pub proof fn lemma_squeezed(s: Seq<char>)
    ensures
        squeezed(s).filter(|c: char| !is_white(c)) == s.filter(|c: char| !is_white(c)),
        squeezed(s).len() > 0 ==> !is_white(squeezed(s)[0]) && !is_white(squeezed(s).last()),
        forall|i: int|
            0 < i < squeezed(s).len() && is_white(#[trigger] squeezed(s)[i]) ==> squeezed(s)[i] == ' ' && !is_white(
                squeezed(s)[i - 1],
            ),
    decreases s.len(),
{
    reveal(Seq::filter);
    let f = |c: char| !is_white(c);
    if s.len() > 0 {
        let d = s.drop_last();
        lemma_squeezed(d);
        let r = squeezed(d);
        let c = s.last();
        crate::text::lemma_char_range(c);
        if !is_white(c) {
            if d.len() > 0 && is_white(d.last()) && r.len() > 0 {
                assert(r.push(' ').push(c).drop_last() =~= r.push(' '));
                assert(r.push(' ').drop_last() =~= r);
                assert(is_white(' '));
                assert(r.push(' ').filter(f) == r.filter(f));
                assert(r.push(' ').push(c).filter(f) == r.push(' ').filter(f).push(c));
                let q = r.push(' ').push(c);
                assert forall|i: int| 0 < i < q.len() && is_white(#[trigger] q[i]) implies q[i] == ' ' && !is_white(
                    q[i - 1],
                ) by {
                    if i < r.len() {
                        assert(q[i] == r[i]);
                        assert(q[i - 1] == r[i - 1]);
                    }
                }
            } else {
                assert(r.push(c).drop_last() =~= r);
                assert(r.push(c).filter(f) == r.filter(f).push(c));
                let q = r.push(c);
                assert forall|i: int| 0 < i < q.len() && is_white(#[trigger] q[i]) implies q[i] == ' ' && !is_white(
                    q[i - 1],
                ) by {
                    if i < r.len() {
                        assert(q[i] == r[i]);
                        assert(q[i - 1] == r[i - 1]);
                    }
                }
            }
        }
    }
}

pub fn squeeze(s: &[char]) -> (r: Vec<char>)
    ensures
        r@ == squeezed(s@),
{
    let mut out: Vec<char> = Vec::new();
    let mut i: usize = 0;
    while i < s.len()
        invariant
            i <= s@.len(),
            out@ == squeezed(s@.take(i as int)),
        decreases s@.len() - i,
    {
        proof {
            assert(s@.take(i + 1).drop_last() =~= s@.take(i as int));
        }
        if !is_white_char(s[i]) {
            if i > 0 && is_white_char(s[i - 1]) && out.len() > 0 {
                out.push(' ');
            }
            out.push(s[i]);
        }
        i += 1;
    }
    proof {
        assert(s@.take(s@.len() as int) =~= s@);
    }
    out
}

fn new_title(found: &Option<Vec<char>>, url: &[char]) -> (r: Vec<char>)
    ensures
        r@ == title_for(opt_chars(*found), url@),
{
    if let Some(t) = found {
        let q: Vec<char> = squeeze(t);
        if q.len() > 0 {
            return q;
        }
    }
    copy(url)
}

fn field(text: &[char]) -> (r: TextInput)
    ensures
        r@ == TextInputState::initial(text@),
        r@.wf(),
{
    TextInput::new(to_text(text).as_str())
}

fn same_link(a: &Option<Vec<char>>, b: &Option<Vec<char>>) -> (r: bool)
    ensures
        r == (opt_chars(*a) == opt_chars(*b)),
{
    match (a, b) {
        (Some(x), Some(y)) => same(x, y),
        (None, None) => true,
        _ => false,
    }
}

impl Browser {
    /// An empty window.
    pub fn new() -> (r: Browser)
        ensures
            r@.wf(),
            r@ == (BrowserState {
                tab: Tab {
                    editing: false,
                    loading: false,
                    scroll: 0,
                    size: (1000, 700),
                    hover_btn: None,
                    dragging_scrollbar: false,
                    height: None,
                },
                address: TextInputState::initial(""@),
                history: HistoryState { back: Seq::empty(), forward: Seq::empty(), url: None },
                title: "Browser"@,
                status: Seq::empty(),
                error: None,
                hover_link: None,
                links: Seq::empty(),
            }),
    {
        let r: Browser = Browser {
            tab: Tab {
                editing: false,
                loading: false,
                scroll: 0,
                size: (1000, 700),
                hover_btn: None,
                dragging_scrollbar: false,
                height: None,
            },
            address: TextInput::new(""),
            history: History::new(),
            title: to_chars("Browser"),
            status: Vec::new(),
            error: None,
            hover_link: None,
            links: Vec::new(),
        };
        proof {
            assert(r@.links =~= Seq::<LinkState>::empty());
            assert(r@.status =~= Seq::<char>::empty());
        }
        r
    }

    /// The title of the window.
    pub fn title(&self) -> (r: Vec<char>)
        ensures
            r@ == self@.title + " \u{2014} Browser"@,
    {
        let mut out: Vec<char> = copy(&self.title);
        push_str(&mut out, " \u{2014} Browser");
        out
    }

    /// What the status bar says.
    pub fn status_text(&self) -> (r: Vec<char>)
        ensures
            r@ == self@.message(),
    {
        match &self.hover_link {
            Some(l) => copy(l),
            None => copy(&self.status),
        }
    }

    fn set_document(&mut self, url: Address, title: &Option<Vec<char>>)
        ensures
            final(self)@ == old(self)@.showing(url@, opt_chars(*title)),
    {
        self.title = new_title(title, &url.text);
        self.history.url = Some(url);
        self.links = Vec::new();
        self.tab.height = None;
        self.tab.scroll = 0;
        proof {
            assert(self@.links =~= Seq::<LinkState>::empty());
        }
    }

    /// Show the browser's own page; what loads is to be stopped.
    pub fn show_home(&mut self, title: Option<Vec<char>>)
        ensures
            final(self)@ == old(self)@.at_home(opt_chars(title)),
            final(self)@.address.wf(),
            final(self)@.tab.wf(),
    {
        self.tab.loading = false;
        let home: Address = Address { text: to_chars("about:home"), host: Vec::new(), about: true };
        proof {
            assert(home.host@ =~= Seq::<char>::empty());
        }
        self.set_document(home, &title);
        self.address = TextInput::new("");
        self.tab.editing = true;
    }

    fn head_for(&mut self, a: &Address)
        ensures
            final(self)@ == old(self)@.heading_for(a@),
            final(self)@.address.wf(),
    {
        self.address = field(&a.text);
        self.tab.editing = false;
        self.tab.loading = true;
        self.error = None;
        let mut s: Vec<char> = to_chars("Connecting to ");
        if a.host.len() == 0 {
            push_str(&mut s, "disk");
        } else {
            push_all(&mut s, &a.host);
        }
        push_str(&mut s, "\u{2026}");
        self.status = s;
    }

    /// Go to a page; it is to be loaded.
    pub fn navigate(&mut self, url: Address, record: bool) -> (r: Effect)
        ensures
            final(self)@ == old(self)@.navigated(url@, record),
            r@ == EffectState::Load(url@),
            final(self)@.address.wf(),
    {
        let a: Address = copy_address(&url);
        self.history.visit(a, record);
        self.head_for(&url);
        Effect::Load(url)
    }

    fn go_back(&mut self) -> (r: Effect)
        requires
            old(self)@.wf(),
        ensures
            (final(self)@, r@) == old(self)@.back(),
            final(self)@.wf(),
    {
        match self.history.go_back() {
            Some(a) => {
                self.head_for(&a);
                Effect::Load(a)
            },
            None => Effect::Nothing,
        }
    }

    fn go_forward(&mut self) -> (r: Effect)
        requires
            old(self)@.wf(),
        ensures
            (final(self)@, r@) == old(self)@.forward(),
            final(self)@.wf(),
    {
        match self.history.go_forward() {
            Some(a) => {
                self.head_for(&a);
                Effect::Load(a)
            },
            None => Effect::Nothing,
        }
    }

    fn reload(&mut self) -> (r: Effect)
        requires
            old(self)@.wf(),
        ensures
            (final(self)@, r@) == old(self)@.reloaded(),
            final(self)@.wf(),
    {
        match self.history.reload() {
            Some(a) => {
                self.head_for(&a);
                Effect::Load(a)
            },
            None => Effect::Nothing,
        }
    }

    /// The page has been laid out.
    pub fn set_layout(&mut self, height: i32, links: Vec<Link>)
        requires
            old(self)@.wf(),
        ensures
            final(self)@ == old(self)@.laid_out(height, links_of(links@)),
            final(self)@.wf(),
    {
        self.links = links;
        self.tab.height = Some(height);
        let at: i64 = self.tab.scroll;
        self.tab.scroll_to(at);
    }

    /// The link at a point of the window.
    pub fn link_at(&self, x: i32, y: i32) -> (r: Option<Vec<char>>)
        requires
            self@.wf(),
        ensures
            opt_chars(r) == self@.link_under(x as int, y as int),
    {
        let c: Area = self.tab.content_rect();
        if self.tab.height.is_none() || !c.has(x, y) {
            return None;
        }
        let px: i64 = x as i64;
        let py: i64 = y as i64 - c.y + self.tab.scroll;
        let ghost all = links_of(self.links@);
        let mut i: usize = self.links.len();
        proof {
            assert(all.take(i as int) =~= all);
        }
        while i > 0
            invariant
                i <= self.links@.len(),
                all == links_of(self.links@),
                self@.link_under(x as int, y as int) == link_on(all, px as int, py as int),
                link_on(all, px as int, py as int) == link_on(all.take(i as int), px as int, py as int),
            decreases i,
        {
            i -= 1;
            let l: &Link = &self.links[i];
            proof {
                assert(all.take(i + 1).drop_last() =~= all.take(i as int));
                assert(all.take(i + 1).last() == l@);
            }
            if l.x as i64 <= px && px < l.x as i64 + l.w as i64 && l.y as i64 <= py && py < l.y as i64 + max_i64(
                l.h as i64,
                1,
            ) {
                return Some(copy(&l.href));
            }
        }
        None
    }

    fn mouse_move(&mut self, x: i32, y: i32, buttons: u8, link: Option<Vec<char>>) -> (redraw: bool)
        requires
            old(self)@.wf(),
        ensures
            (final(self)@, redraw) == old(self)@.moved(x as int, y as int, buttons, opt_chars(link)),
            final(self)@.wf(),
    {
        if self.tab.dragging_scrollbar && buttons & 1 != 0 {
            let to: i64 = self.tab.drag_place(y);
            self.tab.scroll_to(to);
            return true;
        }
        let btn: Option<u8> = Tab::button_at(x, y);
        let changed: bool = !same_link(&link, &self.hover_link) || btn != self.tab.hover_btn;
        self.hover_link = link;
        self.tab.hover_btn = btn;
        changed
    }

    fn edit_address(&mut self)
        requires
            old(self)@.wf(),
        ensures
            final(self)@ == old(self)@.edited(),
            final(self)@.wf(),
    {
        self.tab.editing = true;
        self.address.all_selected = true;
    }

    fn mouse_down(&mut self, x: i32, y: i32) -> (r: Effect)
        requires
            old(self)@.wf(),
        ensures
            (final(self)@, r@) == old(self)@.pressed(x as int, y as int),
            final(self)@.wf(),
    {
        if self.tab.address_rect().has(x, y) {
            if !self.tab.editing {
                self.edit_address();
            }
            return Effect::Nothing;
        }
        self.tab.editing = false;
        match Tab::button_at(x, y) {
            Some(b) => {
                if b == 0 {
                    self.go_back()
                } else if b == 1 {
                    self.go_forward()
                } else if b == 2 {
                    if self.tab.loading {
                        self.tab.loading = false;
                        self.status = Vec::new();
                        proof {
                            assert(self@.status =~= Seq::<char>::empty());
                        }
                        Effect::Stop
                    } else {
                        self.reload()
                    }
                } else {
                    Effect::Home
                }
            },
            None => {
                let c: Area = self.tab.content_rect();
                if x as i64 >= c.x + c.w && y as i64 >= c.y && (y as i64) < c.y + c.h {
                    self.tab.dragging_scrollbar = true;
                    Effect::Nothing
                } else {
                    match self.link_at(x, y) {
                        Some(href) => Effect::Follow(href),
                        None => Effect::Nothing,
                    }
                }
            },
        }
    }

    fn edit_key(&mut self, k: &KeyEvent) -> (r: Effect)
        requires
            old(self)@.wf(),
        ensures
            (final(self)@, r@) == old(self)@.edit_key(*k),
            final(self)@.wf(),
    {
        match k.key {
            Key::Enter => Effect::Go(copy(&self.address.text)),
            Key::Escape => {
                self.tab.editing = false;
                if let Some(u) = &self.history.url {
                    self.address = field(&u.text);
                }
                Effect::Nothing
            },
            _ => {
                let _ = self.address.key(k);
                Effect::Nothing
            },
        }
    }

    fn scroll_key(&self, k: Key) -> (r: Option<i64>)
        requires
            self@.wf(),
        ensures
            match r {
                Some(v) => self@.scroll_key(k) == Some(v as int),
                None => self@.scroll_key(k) is None,
            },
    {
        let at: i64 = self.tab.scroll;
        let view: i64 = self.tab.content_rect().h;
        match k {
            Key::Down => Some(at + 40),
            Key::Up => Some(at - 40),
            Key::PageDown => Some(at + view - 40),
            Key::Char(c) => if c == ' ' { Some(at + view - 40) } else { None },
            Key::PageUp => Some(at - (view - 40)),
            Key::Home => Some(0),
            Key::End => Some(self.tab.max_scroll()),
            _ => None,
        }
    }

    fn page_key(&mut self, k: &KeyEvent) -> (r: Option<Effect>)
        requires
            old(self)@.wf(),
        ensures
            match r {
                Some(e) => old(self)@.page_key(*k) == Some((final(self)@, e@)),
                None => old(self)@.page_key(*k) is None && final(self)@ == old(self)@,
            },
            final(self)@.wf(),
    {
        match k.key {
            Key::Left => if k.alt { Some(self.go_back()) } else { None },
            Key::Right => if k.alt { Some(self.go_forward()) } else { None },
            Key::Backspace => Some(self.go_back()),
            Key::F(n) => if n == 5 { Some(self.reload()) } else { None },
            Key::Char(c) => {
                if c == 'l' && k.ctrl {
                    self.edit_address();
                    Some(Effect::Nothing)
                } else {
                    None
                }
            },
            _ => None,
        }
    }

    fn key(&mut self, k: &KeyEvent) -> (r: (Effect, bool))
        requires
            old(self)@.wf(),
        ensures
            (final(self)@, r.0@, r.1) == old(self)@.keyed(*k),
            final(self)@.wf(),
    {
        if self.tab.editing {
            return (self.edit_key(k), true);
        }
        if let Some(v) = self.scroll_key(k.key) {
            self.tab.scroll_to(v);
            return (Effect::Nothing, true);
        }
        match self.page_key(k) {
            Some(e) => {
                let at: i64 = self.tab.scroll;
                self.tab.scroll_to(at);
                (e, true)
            },
            None => (Effect::Nothing, false),
        }
    }

    /// An event; `link` is the address of the link under the pointer. What
    /// is to be done, and whether to draw the window again.
    pub fn event(&mut self, ev: &AppEvent, link: Option<Vec<char>>) -> (r: (Effect, bool))
        requires
            old(self)@.wf(),
        ensures
            (final(self)@, r.0@, r.1) == old(self)@.after(*ev, opt_chars(link)),
            final(self)@.wf(),
    {
        match ev {
            AppEvent::MouseMove { x, y, buttons } => {
                let redraw: bool = self.mouse_move(*x, *y, *buttons, link);
                (Effect::Nothing, redraw)
            },
            AppEvent::MouseUp { .. } => {
                self.tab.dragging_scrollbar = false;
                (Effect::Nothing, false)
            },
            AppEvent::MouseDown { x, y, button, .. } => {
                if *button == 0 {
                    (self.mouse_down(*x, *y), true)
                } else {
                    (Effect::Nothing, false)
                }
            },
            AppEvent::Wheel { delta, .. } => {
                let to: i64 = self.tab.scroll + *delta as i64 * 60;
                self.tab.scroll_to(to);
                (Effect::Nothing, true)
            },
            AppEvent::Key(k) => {
                if k.pressed {
                    self.key(k)
                } else {
                    (Effect::Nothing, false)
                }
            },
            AppEvent::Focus(_) => (Effect::Nothing, true),
            AppEvent::Resized { .. } => (Effect::Nothing, true),
            _ => (Effect::Nothing, false),
        }
    }

    /// The page has come.
    pub fn page_loaded(&mut self, url: Address, title: Option<Vec<char>>)
        ensures
            final(self)@ == old(self)@.loaded(url@, opt_chars(title)),
            final(self)@.wf(),
    {
        self.tab.loading = false;
        self.address = field(&url.text);
        self.set_document(url, &title);
    }

    /// The page cannot be had.
    pub fn page_failed(&mut self, e: Vec<char>)
        ensures
            final(self)@ == old(self)@.failed(e@),
    {
        self.tab.loading = false;
        self.error = Some(e);
    }

    /// How the loading gets on; whether that is new.
    pub fn set_status(&mut self, s: Vec<char>) -> (changed: bool)
        ensures
            final(self)@ == (BrowserState { status: s@, ..old(self)@ }),
            changed == (s@ != old(self)@.status),
    {
        let changed: bool = !same(&s, &self.status);
        self.status = s;
        changed
    }

    /// Takes what the load has brought since the last look: the page, with its
    /// address and title, or why there is none; whether pictures have come;
    /// and how it gets on.
    pub fn tick(&mut self, result: Option<Result<(Address, Option<Vec<char>>), Vec<char>>>, images: bool, status: Vec<char>) -> (r: Tick)
        ensures
            (final(self)@, r) == old(self)@.ticked(result_of(result), images, status@),
            old(self)@.wf() ==> final(self)@.wf(),
    {
        let mut t = Tick { layout: images, redraw: images, progress: false };
        match result {
            Some(Ok((url, title))) => {
                self.page_loaded(url, title);
                t.layout = true;
                t.redraw = true;
            },
            Some(Err(e)) => {
                self.page_failed(e);
                t.redraw = true;
            },
            None => {},
        }
        if self.set_status(status) {
            t.redraw = true;
        }
        t.progress = self.tab.loading;
        t
    }
}

} // verus!
