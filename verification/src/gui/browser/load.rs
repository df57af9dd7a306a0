//! Loading a page: what to ask for next, by what has come back so far.
//!
//! First comes the page itself (or the listing of a folder), then the style
//! sheets that it links to, and once it is shown its pictures, one by one.

use super::page::{
    classify, content, folder_html, folder_page, image_html, kept_size, picture_page, progress, progress_text, refusal,
    refused, size_kept, text_html, text_page, Content, MAX_IMAGES,
};
use crate::fs::entry::{entries_of, DirEntry, EntryState};
use super::typed::has_text;
use crate::text::{lower_all, push_all, push_str, read_text, starts, text_of_bytes, to_chars};
use vstd::prelude::*;

verus! {

/// No more style sheets of a page are loaded.
pub const MAX_STYLES: usize = 10;

/// A style sheet is shorter than this, or it is left out.
pub const STYLE_BYTES: usize = 2_097_152;

/// A picture is no longer than this, or it is left out.
pub const PICTURE_BYTES: usize = 8_388_608;

/// What a server sent, and from which address in the end.
pub struct Answer {
    pub status: u32,
    pub content_type: Vec<char>,
    pub url: Vec<char>,
    pub path: Vec<char>,
    pub body: Vec<u8>,
    /// Whether the body looks like a picture.
    pub image: bool,
}

#[verifier::ext_equal]
pub struct AnswerState {
    pub status: u32,
    pub content_type: Seq<char>,
    pub url: Seq<char>,
    pub path: Seq<char>,
    pub body: Seq<u8>,
    pub image: bool,
}

impl View for Answer {
    type V = AnswerState;

    open spec fn view(&self) -> AnswerState {
        AnswerState {
            status: self.status,
            content_type: self.content_type@,
            url: self.url@,
            path: self.path@,
            body: self.body@,
            image: self.image,
        }
    }
}

/// What has come back.
pub enum Reply {
    /// There is no folder at the address.
    NoFolder,
    /// The path and the entries of a folder.
    Folder(Vec<char>, Vec<DirEntry>),
    Page(Answer),
    /// The page or the folder cannot be had; why.
    Failed(Vec<char>),
    /// The page was read: how many style sheets it links to, and how many
    /// pictures it shows.
    Document(usize, usize),
    /// A style sheet or a picture has come: its status and its length.
    File(u32, usize),
    /// A style sheet or a picture cannot be had.
    Missing,
    /// The size of a picture.
    Decoded(u32, u32),
    /// What was ordered is done.
    Done,
}

#[verifier::ext_equal]
pub ghost enum ReplyState {
    NoFolder,
    Folder(Seq<char>, Seq<EntryState>),
    Page(AnswerState),
    Failed(Seq<char>),
    Document(int, int),
    File(u32, int),
    Missing,
    Decoded(u32, u32),
    Done,
}

impl View for Reply {
    type V = ReplyState;

    open spec fn view(&self) -> ReplyState {
        match self {
            Reply::NoFolder => ReplyState::NoFolder,
            Reply::Folder(p, e) => ReplyState::Folder(p@, entries_of(e@)),
            Reply::Page(a) => ReplyState::Page(a@),
            Reply::Failed(e) => ReplyState::Failed(e@),
            Reply::Document(s, p) => ReplyState::Document(*s as int, *p as int),
            Reply::File(s, n) => ReplyState::File(*s, *n as int),
            Reply::Missing => ReplyState::Missing,
            Reply::Decoded(w, h) => ReplyState::Decoded(*w, *h),
            Reply::Done => ReplyState::Done,
        }
    }
}

/// What to do next.
pub enum Order {
    /// Look whether the address is that of a folder, and list it.
    LookForFolder,
    /// Get the page.
    Fetch,
    /// Read this page, with its own style sheets or without any.
    Parse(Vec<char>, bool),
    /// Get a style sheet, by its number.
    Style(usize),
    /// Show the page, with the style sheets that were kept before its own.
    Publish,
    /// Show why there is no page.
    Fail(Vec<char>),
    /// Get a picture, by its number.
    Picture(usize),
    /// Read the picture that has come.
    Decode(usize),
    /// Keep the picture at this size.
    Keep(usize, u32, u32),
    /// All is loaded: nothing more is to be said.
    Finish,
    /// The load was given up: leave everything as it is.
    Stop,
    /// That was not the reply to the last order: go on waiting.
    Wait,
}

#[verifier::ext_equal]
pub ghost enum OrderState {
    LookForFolder,
    Fetch,
    Parse(Seq<char>, bool),
    Style(int),
    Publish,
    Fail(Seq<char>),
    Picture(int),
    Decode(int),
    Keep(int, u32, u32),
    Finish,
    Stop,
    Wait,
}

impl View for Order {
    type V = OrderState;

    open spec fn view(&self) -> OrderState {
        match self {
            Order::LookForFolder => OrderState::LookForFolder,
            Order::Fetch => OrderState::Fetch,
            Order::Parse(t, own) => OrderState::Parse(t@, *own),
            Order::Style(i) => OrderState::Style(*i as int),
            Order::Publish => OrderState::Publish,
            Order::Fail(e) => OrderState::Fail(e@),
            Order::Picture(i) => OrderState::Picture(*i as int),
            Order::Decode(i) => OrderState::Decode(*i as int),
            Order::Keep(i, w, h) => OrderState::Keep(*i as int, *w, *h),
            Order::Finish => OrderState::Finish,
            Order::Stop => OrderState::Stop,
            Order::Wait => OrderState::Wait,
        }
    }
}

/// Which reply is waited for.
#[derive(Clone, Copy, Debug, PartialEq, Eq, Structural)]
pub enum Stage {
    Folder,
    Page,
    /// Whether the page brings its own style sheets.
    Document(bool),
    Style(usize),
    Published,
    Picture(usize),
    Decoded(usize),
    Kept(usize),
    Over,
}

pub struct Load {
    pub stage: Stage,
    /// How many style sheets and pictures are to be had.
    pub styles: usize,
    pub pictures: usize,
    /// The style sheets that have come, by their numbers.
    pub kept: Vec<usize>,
    /// Whether nobody waits for the page any more.
    pub cancelled: bool,
}

#[verifier::ext_equal]
pub ghost struct LoadState {
    pub stage: Stage,
    pub styles: int,
    pub pictures: int,
    pub kept: Seq<usize>,
    pub cancelled: bool,
}

impl View for Load {
    type V = LoadState;

    open spec fn view(&self) -> LoadState {
        LoadState {
            stage: self.stage,
            styles: self.styles as int,
            pictures: self.pictures as int,
            kept: self.kept@,
            cancelled: self.cancelled,
        }
    }
}

pub open spec fn at_most(n: int, limit: int) -> int {
    if n < limit { n } else { limit }
}

impl LoadState {
    /// The number of the style sheet or picture that is waited for is one
    /// that there is.
    pub open spec fn in_range(self) -> bool {
        match self.stage {
            Stage::Style(i) => i < self.styles,
            Stage::Picture(i) => i < self.pictures,
            Stage::Decoded(i) => i < self.pictures,
            Stage::Kept(i) => i < self.pictures,
            _ => true,
        }
    }

    /// How many style sheets were asked for.
    pub open spec fn asked(self) -> int {
        match self.stage {
            Stage::Style(i) => i as int,
            _ => self.styles,
        }
    }

    pub open spec fn wf(self) -> bool {
        &&& 0 <= self.styles <= MAX_STYLES
        &&& 0 <= self.pictures <= MAX_IMAGES
        &&& self.in_range()
        &&& self.kept_below(self.asked())
    }

    /// The style sheets that were kept are in order, each once, and before
    /// this one.
    pub open spec fn kept_below(self, n: int) -> bool {
        &&& forall|k: int| 0 <= k < self.kept.len() ==> (#[trigger] self.kept[k]) < n
        &&& forall|j: int, k: int| 0 <= j < k < self.kept.len() ==> self.kept[j] < self.kept[k]
    }

    pub open spec fn started(file: bool) -> LoadState {
        LoadState {
            stage: if file { Stage::Folder } else { Stage::Page },
            styles: 0,
            pictures: 0,
            kept: Seq::empty(),
            cancelled: false,
        }
    }

    pub open spec fn at(self, stage: Stage) -> LoadState {
        LoadState { stage, ..self }
    }

    /// The load is over, for whatever reason.
    pub open spec fn over(self, o: OrderState) -> (LoadState, OrderState) {
        (self.at(Stage::Over), if self.cancelled { OrderState::Stop } else { o })
    }

    /// The style sheet with this number is next, or the page is shown.
    pub open spec fn style(self, i: int) -> (LoadState, OrderState) {
        if self.cancelled {
            self.over(OrderState::Stop)
        } else if i < self.styles {
            (self.at(Stage::Style(i as usize)), OrderState::Style(i))
        } else {
            (self.at(Stage::Published), OrderState::Publish)
        }
    }

    /// The picture with this number is next, or all is done. (A load that is
    /// given up after the last picture has nothing left to leave out.)
    pub open spec fn picture(self, i: int) -> (LoadState, OrderState) {
        if i >= self.pictures {
            (self.at(Stage::Over), OrderState::Finish)
        } else if self.cancelled {
            self.over(OrderState::Stop)
        } else {
            (self.at(Stage::Picture(i as usize)), OrderState::Picture(i))
        }
    }

    pub open spec fn answered(self, a: AnswerState) -> (LoadState, OrderState) {
        match content(a.status, a.content_type, a.path, a.body, a.image) {
            Content::Refused => self.over(OrderState::Fail(refused(a.status as int))),
            Content::Picture => (self.at(Stage::Document(false)), OrderState::Parse(picture_page(a.url, a.path), false)),
            Content::Text => (self.at(Stage::Document(false)), OrderState::Parse(text_page(read_text(a.body)), false)),
            Content::Page => (self.at(Stage::Document(true)), OrderState::Parse(read_text(a.body), true)),
        }
    }

    pub open spec fn step(self, r: ReplyState) -> (LoadState, OrderState) {
        let wait = (self, OrderState::Wait);
        match self.stage {
            Stage::Folder => match r {
                ReplyState::NoFolder => (self.at(Stage::Page), OrderState::Fetch),
                ReplyState::Folder(p, e) => (
                    self.at(Stage::Document(false)),
                    OrderState::Parse(folder_page(p, e), false),
                ),
                ReplyState::Failed(e) => self.over(OrderState::Fail(e)),
                _ => wait,
            },
            Stage::Page => match r {
                ReplyState::Page(a) => self.answered(a),
                ReplyState::Failed(e) => self.over(OrderState::Fail(e)),
                _ => wait,
            },
            Stage::Document(own) => match r {
                ReplyState::Document(s, p) => LoadState {
                    styles: if own { at_most(s, MAX_STYLES as int) } else { 0 },
                    pictures: at_most(p, MAX_IMAGES as int),
                    kept: Seq::empty(),
                    ..self
                }.style(0),
                _ => wait,
            },
            Stage::Style(i) => match r {
                ReplyState::File(status, n) => if status == 200 && n < STYLE_BYTES {
                    LoadState { kept: self.kept.push(i), ..self }.style(i + 1)
                } else {
                    self.style(i + 1)
                },
                ReplyState::Missing => self.style(i + 1),
                _ => wait,
            },
            Stage::Published => match r {
                ReplyState::Done => self.picture(0),
                _ => wait,
            },
            Stage::Picture(i) => match r {
                ReplyState::File(status, n) => if status == 200 && n <= PICTURE_BYTES {
                    (self.at(Stage::Decoded(i)), OrderState::Decode(i as int))
                } else {
                    self.picture(i + 1)
                },
                ReplyState::Missing => self.picture(i + 1),
                _ => wait,
            },
            Stage::Decoded(i) => match r {
                ReplyState::Decoded(w, h) => (
                    self.at(Stage::Kept(i)),
                    OrderState::Keep(i as int, size_kept(w, h).0, size_kept(w, h).1),
                ),
                ReplyState::Missing => self.picture(i + 1),
                _ => wait,
            },
            Stage::Kept(i) => match r {
                ReplyState::Done => self.picture(i + 1),
                _ => wait,
            },
            Stage::Over => wait,
        }
    }

    /// How many replies may still matter.
    pub open spec fn left(self) -> int {
        match self.stage {
            Stage::Folder => 300,
            Stage::Page => 299,
            Stage::Document(_) => 298,
            Stage::Style(i) => 270 - i,
            Stage::Published => 250,
            Stage::Picture(i) => 4 * (self.pictures - i) + 2,
            Stage::Decoded(i) => 4 * (self.pictures - i) + 1,
            Stage::Kept(i) => 4 * (self.pictures - i),
            Stage::Over => 0,
        }
    }

    /// What is said while the reply is waited for, where it changes.
    pub open spec fn status(self, host: Seq<char>) -> Option<Seq<char>> {
        match self.stage {
            Stage::Document(_) => Some("Reading "@ + host + "\u{2026}"@),
            Stage::Style(i) => Some(progress("styles"@, i + 1, self.styles)),
            Stage::Picture(i) => Some(progress("pictures"@, i + 1, self.pictures)),
            Stage::Over => Some(Seq::empty()),
            _ => None,
        }
    }
}

impl Load {
    /// Starts to load a page, from a disk or from the net.
    pub fn new(file: bool) -> (r: (Load, Order))
        ensures
            r.0@ == LoadState::started(file),
            r.0@.wf(),
            r.1@ == if file { OrderState::LookForFolder } else { OrderState::Fetch },
    {
        let load = Load {
            stage: if file { Stage::Folder } else { Stage::Page },
            styles: 0,
            pictures: 0,
            kept: Vec::new(),
            cancelled: false,
        };
        assert(load@ =~= LoadState::started(file));
        (load, if file { Order::LookForFolder } else { Order::Fetch })
    }

    /// Nobody waits for the page any more.
    pub fn cancel(&mut self)
        ensures
            final(self)@ == (LoadState { cancelled: true, ..old(self)@ }),
            old(self)@.wf() ==> final(self)@.wf(),
    {
        self.cancelled = true;
    }

    fn over(&mut self, o: Order) -> (r: Order)
        requires
            old(self)@.wf(),
        ensures
            (final(self)@, r@) == old(self)@.over(o@),
            final(self)@.wf(),
    {
        self.stage = Stage::Over;
        assert(self@.kept == old(self)@.kept);
        assert(self@.kept_below(old(self)@.asked()));
        if self.cancelled { Order::Stop } else { o }
    }

    fn style(&mut self, i: usize) -> (r: Order)
        requires
            i <= old(self)@.styles <= MAX_STYLES,
            0 <= old(self)@.pictures <= MAX_IMAGES,
            old(self)@.kept_below(i as int),
        ensures
            (final(self)@, r@) == old(self)@.style(i as int),
            final(self)@.wf(),
    {
        if self.cancelled {
            self.stage = Stage::Over;
            Order::Stop
        } else if i < self.styles {
            self.stage = Stage::Style(i);
            Order::Style(i)
        } else {
            self.stage = Stage::Published;
            Order::Publish
        }
    }

    fn picture(&mut self, i: usize) -> (r: Order)
        requires
            old(self)@.wf(),
            !(old(self)@.stage is Style),
        ensures
            (final(self)@, r@) == old(self)@.picture(i as int),
            final(self)@.wf(),
    {
        if i >= self.pictures {
            self.stage = Stage::Over;
            Order::Finish
        } else if self.cancelled {
            self.stage = Stage::Over;
            Order::Stop
        } else {
            self.stage = Stage::Picture(i);
            Order::Picture(i)
        }
    }

    fn answered(&mut self, a: &Answer) -> (r: Order)
        requires
            old(self)@.wf(),
            !(old(self)@.stage is Style),
        ensures
            (final(self)@, r@) == old(self)@.answered(a@),
            final(self)@.wf(),
    {
        match classify(a.status, &a.content_type, &a.path, &a.body, a.image) {
            Content::Refused => self.over(Order::Fail(refusal(a.status))),
            Content::Picture => {
                self.stage = Stage::Document(false);
                Order::Parse(image_html(&a.url, &a.path), false)
            },
            Content::Text => {
                self.stage = Stage::Document(false);
                let t: Vec<char> = to_chars(text_of_bytes(&a.body).as_str());
                Order::Parse(text_html(&t), false)
            },
            Content::Page => {
                self.stage = Stage::Document(true);
                Order::Parse(to_chars(text_of_bytes(&a.body).as_str()), true)
            },
        }
    }

    /// What to do next, now that this has come back.
    pub fn step(&mut self, reply: Reply) -> (r: Order)
        requires
            old(self)@.wf(),
        ensures
            (final(self)@, r@) == old(self)@.step(reply@),
            final(self)@.wf(),
    {
        match (self.stage, reply) {
            (Stage::Folder, Reply::NoFolder) => {
                self.stage = Stage::Page;
                Order::Fetch
            },
            (Stage::Folder, Reply::Folder(p, e)) => {
                self.stage = Stage::Document(false);
                Order::Parse(folder_html(&p, &e), false)
            },
            (Stage::Folder, Reply::Failed(e)) => self.over(Order::Fail(e)),
            (Stage::Page, Reply::Failed(e)) => self.over(Order::Fail(e)),
            (Stage::Page, Reply::Page(a)) => self.answered(&a),
            (Stage::Document(own), Reply::Document(s, p)) => {
                self.styles = if !own {
                    0
                } else if s < MAX_STYLES {
                    s
                } else {
                    MAX_STYLES
                };
                self.pictures = if p < MAX_IMAGES { p } else { MAX_IMAGES };
                self.kept = Vec::new();
                self.style(0)
            },
            (Stage::Style(i), Reply::File(status, n)) => {
                if status == 200 && n < STYLE_BYTES {
                    self.kept.push(i);
                }
                assert(self@.kept_below(i + 1)) by {
                    assert(old(self)@.kept_below(i as int));
                    assert(forall|k: int| 0 <= k < old(self)@.kept.len() ==> self@.kept[k] == old(self)@.kept[k]);
                }
                self.style(i + 1)
            },
            (Stage::Style(i), Reply::Missing) => self.style(i + 1),
            (Stage::Published, Reply::Done) => self.picture(0),
            (Stage::Picture(i), Reply::File(status, n)) => {
                if status == 200 && n <= PICTURE_BYTES {
                    self.stage = Stage::Decoded(i);
                    Order::Decode(i)
                } else {
                    self.picture(i + 1)
                }
            },
            (Stage::Picture(i), Reply::Missing) => self.picture(i + 1),
            (Stage::Decoded(i), Reply::Decoded(w, h)) => {
                self.stage = Stage::Kept(i);
                let (kw, kh) = kept_size(w, h);
                Order::Keep(i, kw, kh)
            },
            (Stage::Decoded(i), Reply::Missing) => self.picture(i + 1),
            (Stage::Kept(i), Reply::Done) => self.picture(i + 1),
            _ => Order::Wait,
        }
    }

    /// What to say while the reply is waited for, where that changes.
    pub fn status(&self, host: &[char]) -> (r: Option<Vec<char>>)
        requires
            self@.wf(),
        ensures
            match r {
                Some(t) => self@.status(host@) == Some(t@),
                None => self@.status(host@) is None,
            },
    {
        match self.stage {
            Stage::Document(_) => {
                let mut out: Vec<char> = to_chars("Reading ");
                push_all(&mut out, host);
                push_str(&mut out, "\u{2026}");
                Some(out)
            },
            Stage::Style(i) => Some(progress_text("styles", i as u64 + 1, self.styles as u64)),
            Stage::Picture(i) => Some(progress_text("pictures", i as u64 + 1, self.pictures as u64)),
            Stage::Over => {
                let out: Vec<char> = Vec::new();
                Some(out)
            },
            _ => None,
        }
    }
}

/// A page loads ten style sheets and sixty pictures at most, however many it
/// names, and none of them that it does not name.
pub proof fn lemma_bounded(l: LoadState, r: ReplyState)
    requires
        l.wf(),
        r matches ReplyState::Document(s, p) ==> 0 <= s && 0 <= p,
    ensures
        l.step(r).0.wf(),
        l.step(r).1 matches OrderState::Style(i) ==> 0 <= i < l.step(r).0.styles <= MAX_STYLES,
        l.step(r).1 matches OrderState::Picture(i) ==> 0 <= i < l.step(r).0.pictures <= MAX_IMAGES,
{
}

/// Once a load was given up, nothing more is asked for of the net but what
/// the page itself is, and neither the page nor an error is shown.
pub proof fn lemma_given_up(l: LoadState, r: ReplyState)
    requires
        l.cancelled,
    ensures
        l.step(r).0.cancelled,
        !(l.step(r).1 is Style),
        !(l.step(r).1 is Picture),
        !(l.step(r).1 is Publish),
        !(l.step(r).1 is Fail),
{
}

/// Every load comes to an end: each reply that is waited for brings it nearer.
pub proof fn lemma_comes_to_an_end(l: LoadState, r: ReplyState)
    requires
        l.wf(),
        r matches ReplyState::Document(s, p) ==> 0 <= s && 0 <= p,
    ensures
        l.step(r).1 is Wait ==> l.step(r).0 == l,
        !(l.step(r).1 is Wait) ==> 0 <= l.step(r).0.left() < l.left(),
        l.step(r).0.left() == 0 ==> l.step(r).0.stage is Over,
{
}

/// Style sheets and pictures are asked for one after the other: whatever
/// comes of one, the next is the one behind it, and the page is shown once all
/// style sheets had their turn. A style sheet is kept if it came as it should.
pub proof fn lemma_in_turn(l: LoadState, r: ReplyState)
    requires
        l.wf(),
        !l.cancelled,
        r is File || r is Missing,
    ensures
        l.stage matches Stage::Style(i) ==> {
            let (n, o) = l.step(r);
            let came = r matches ReplyState::File(status, len) && status == 200 && len < STYLE_BYTES;
            &&& i + 1 < l.styles ==> o == OrderState::Style(i + 1) && n.stage == Stage::Style((i + 1) as usize)
            &&& i + 1 == l.styles ==> o == OrderState::Publish
            &&& came ==> n.kept == l.kept.push(i)
            &&& !came ==> n.kept == l.kept
        },
        l.stage matches Stage::Picture(i) ==> {
            let (n, o) = l.step(r);
            let came = r matches ReplyState::File(status, len) && status == 200 && len <= PICTURE_BYTES;
            &&& came ==> o == OrderState::Decode(i as int)
            &&& !came && i + 1 < l.pictures ==> o == OrderState::Picture(i + 1)
            &&& !came && i + 1 == l.pictures ==> o == OrderState::Finish
            &&& n.kept == l.kept
        },
{
}

/// A picture that was decoded is kept under its own number, and then the next
/// one is asked for; after the last the load is finished.
pub proof fn lemma_picture_kept(l: LoadState, w: u32, h: u32)
    requires
        l.wf(),
        !l.cancelled,
    ensures
        l.stage matches Stage::Decoded(i) ==> {
            let (n, o) = l.step(ReplyState::Decoded(w, h));
            &&& o matches OrderState::Keep(k, _, _) && k == i
            &&& i + 1 < l.pictures ==> n.step(ReplyState::Done).1 == OrderState::Picture(i + 1)
            &&& i + 1 == l.pictures ==> n.step(ReplyState::Done).1 == OrderState::Finish
        },
        l.stage is Published ==> {
            let o = l.step(ReplyState::Done).1;
            &&& l.pictures > 0 ==> o == OrderState::Picture(0)
            &&& l.pictures == 0 ==> o == OrderState::Finish
        },
{
}

/// A page that came is read as it came, with its style sheets; a text is
/// shown as a text, without any; and where nothing came the reason is told.
pub proof fn lemma_answer_read(l: LoadState, a: AnswerState, e: Seq<char>)
    requires
        l.stage is Page,
        !l.cancelled,
    ensures
        a.status < 400 && !a.image && has_text(lower_all(a.content_type), "html"@) && !starts(
            lower_all(a.content_type),
            "image/"@,
        ) ==> l.step(ReplyState::Page(a)).1 == OrderState::Parse(read_text(a.body), true),
        a.status >= 400 && a.body.len() == 0 ==> l.step(ReplyState::Page(a)).1 is Fail,
        l.step(ReplyState::Failed(e)).1 == OrderState::Fail(e),
        l.step(ReplyState::Page(a)).1 matches OrderState::Parse(t, own) ==> (own ==> t == read_text(a.body)),
{
}

} // verus!
