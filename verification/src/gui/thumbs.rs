//! Thumbnail service for the file explorer: what is ready, what is still to
//! be made, and in which order.

use crate::arith::min;
use crate::gui::imageview::{image_name, is_image_name};
use crate::gui::player::names::{audio_name, is_media_name, video_name};
use crate::text::{copy, copy_range, dec, find_char, push_dec, same, views};
use std::collections::VecDeque;
use vstd::prelude::*;

verus! {

/// Largest thumbnail edge; tiles draw them scaled to fit.
pub const MAX_W: u32 = 128;
pub const MAX_H: u32 = 96;

/// Edge of the small version shown in the list view.
pub const SMALL: u32 = 22;

/// Don't read enormous pictures just for a preview.
pub const MAX_IMAGE_BYTES: u64 = 25_165_824;

pub const CACHE_LIMIT: usize = 300;

/// Whether this file type can have a thumbnail.
pub fn supported(name: &str) -> (r: bool)
    ensures
        r == (image_name(name@) || video_name(name@) || audio_name(name@)),
{
    is_image_name(name) || is_media_name(name)
}

/// How a thumbnail is made.
#[derive(Clone, Copy, PartialEq, Eq, Debug, Structural)]
pub enum Source {
    /// From the picture itself.
    Picture,
    /// From the cover or a frame of a media file.
    Media,
    Impossible,
}

/// How the thumbnail of a file of this size is made.
pub fn source_for(name: &str, size: u64) -> (r: Source)
    ensures
        r == if image_name(name@) {
            if size > MAX_IMAGE_BYTES { Source::Impossible } else { Source::Picture }
        } else if video_name(name@) || audio_name(name@) {
            Source::Media
        } else {
            Source::Impossible
        },
{
    if is_image_name(name) {
        if size > MAX_IMAGE_BYTES { Source::Impossible } else { Source::Picture }
    } else if is_media_name(name) {
        Source::Media
    } else {
        Source::Impossible
    }
}

/// Skip the (often black) opening of a video: where to take a frame from.
pub fn frame_target(duration_us: i64) -> (r: i64)
    ensures
        r == if duration_us > 4_000_000 { min(duration_us as int / 10, 10_000_000) } else { 0 },
{
    if duration_us > 4_000_000 {
        let t: i64 = duration_us / 10;
        if t < 10_000_000 { t } else { 10_000_000 }
    } else {
        0
    }
}

/// Whether a frame is late enough to stand for the video.
pub open spec fn good_frame(pts: int, target: int) -> bool {
    pts + 100_000 >= target
}

/// The frame to keep of those that came: the first good one; until one
/// comes, the first one.
pub open spec fn kept_frame(frames: Seq<i64>, target: int) -> Option<int>
    decreases frames.len(),
{
    if frames.len() == 0 {
        None
    } else {
        let k = kept_frame(frames.drop_last(), target);
        let n = frames.len() - 1;
        if k is Some && good_frame(frames[k->0] as int, target) {
            k
        } else if good_frame(frames[n] as int, target) || k is None {
            Some(n)
        } else {
            k
        }
    }
}

/// Look at one more frame: whether to keep it in place of `kept`, and
/// whether the search is over.
pub fn look_at_frame(kept: Option<i64>, pts: i64, target: i64) -> (r: (bool, bool))
    requires
        pts <= i64::MAX - 100_000,
        kept matches Some(k) ==> k <= i64::MAX - 100_000,
        kept matches Some(k) ==> !good_frame(k as int, target as int),
    ensures
        r.0 == (good_frame(pts as int, target as int) || kept is None),
        r.1 == good_frame(pts as int, target as int),
{
    let good: bool = pts + 100_000 >= target;
    (good || kept.is_none(), good)
}

/// A search for a frame reads no more packets than this.
pub const MAX_PACKETS: u32 = 400;

/// What came of the last order of a search.
#[derive(Clone, Copy, PartialEq, Eq, Debug, Structural)]
pub enum Sought {
    /// A packet of the video, which the decoder takes.
    Packet,
    /// A packet of something else.
    Other,
    /// There are no more packets.
    End,
    /// A frame of the decoder, with its time.
    Frame(i64),
    /// The decoder has no frame yet.
    NoFrame,
}

#[derive(Clone, Copy, PartialEq, Eq, Debug, Structural)]
pub enum Search {
    NextPacket,
    /// Ask the decoder for a frame; whether to keep the one that came.
    NextFrame(bool),
    /// Ask the decoder for what it still holds.
    Flush,
    /// This is the frame: the one that came last, or the one that was kept.
    TakeNew,
    TakeKept,
    /// There is no frame to be had.
    GiveUp,
    /// That was not the answer to the last order: go on waiting.
    Wait,
}

#[derive(Clone, Copy, PartialEq, Eq, Debug, Structural)]
pub enum Seeking {
    Packet,
    Frame,
    Last,
    Over,
}

/// The search for the frame that stands for a video.
#[derive(Clone, Copy, PartialEq, Eq, Debug, Structural)]
pub struct Hunt {
    pub target: i64,
    pub seeking: Seeking,
    /// How many packets were read.
    pub packets: u32,
    /// The time of the frame that is kept until a better one comes.
    pub kept: Option<i64>,
}

impl Hunt {
    pub open spec fn wf(self) -> bool {
        &&& self.packets < MAX_PACKETS || self.packets == MAX_PACKETS && self.seeking is Over
        &&& self.kept matches Some(k) ==> k <= i64::MAX - 100_000 && !good_frame(k as int, self.target as int)
    }

    /// One more packet was read.
    pub open spec fn read(self) -> (Hunt, Search) {
        let h = Hunt { packets: (self.packets + 1) as u32, ..self };
        if h.packets < MAX_PACKETS {
            (Hunt { seeking: Seeking::Packet, ..h }, Search::NextPacket)
        } else {
            (Hunt { seeking: Seeking::Over, ..h }, if self.kept is Some { Search::TakeKept } else { Search::GiveUp })
        }
    }

    pub open spec fn after(self, s: Sought) -> (Hunt, Search) {
        match (self.seeking, s) {
            (Seeking::Packet, Sought::Packet) => (Hunt { seeking: Seeking::Frame, ..self }, Search::NextFrame(false)),
            (Seeking::Packet, Sought::Other) => self.read(),
            (Seeking::Packet, Sought::End) => (Hunt { seeking: Seeking::Last, ..self }, Search::Flush),
            (Seeking::Frame, Sought::Frame(pts)) => if good_frame(pts as int, self.target as int) {
                (Hunt { seeking: Seeking::Over, ..self }, Search::TakeNew)
            } else if self.kept is None {
                (Hunt { kept: Some(pts), ..self }, Search::NextFrame(true))
            } else {
                (self, Search::NextFrame(false))
            },
            (Seeking::Frame, Sought::NoFrame) => self.read(),
            (Seeking::Last, Sought::Frame(_)) => (Hunt { seeking: Seeking::Over, ..self }, Search::TakeNew),
            (Seeking::Last, Sought::NoFrame) => (Hunt { seeking: Seeking::Over, ..self }, Search::GiveUp),
            _ => (self, Search::Wait),
        }
    }

    pub fn new(target: i64) -> (r: (Hunt, Search))
        ensures
            r.0 == (Hunt { target, seeking: Seeking::Packet, packets: 0, kept: None }),
            r.0.wf(),
            r.1 == Search::NextPacket,
    {
        (Hunt { target, seeking: Seeking::Packet, packets: 0, kept: None }, Search::NextPacket)
    }

    fn read_on(&mut self) -> (r: Search)
        requires
            old(self).wf(),
            old(self).packets < MAX_PACKETS,
        ensures
            (*final(self), r) == old(self).read(),
            final(self).wf(),
    {
        self.packets = self.packets + 1;
        if self.packets < MAX_PACKETS {
            self.seeking = Seeking::Packet;
            Search::NextPacket
        } else {
            self.seeking = Seeking::Over;
            if self.kept.is_some() { Search::TakeKept } else { Search::GiveUp }
        }
    }

    /// What to do next. The time of a frame is far from the end of time.
    pub fn next(&mut self, s: Sought) -> (r: Search)
        requires
            old(self).wf(),
            s matches Sought::Frame(pts) ==> pts <= i64::MAX - 100_000,
        ensures
            (*final(self), r) == old(self).after(s),
            final(self).wf(),
    {
        match (self.seeking, s) {
            (Seeking::Packet, Sought::Packet) => {
                self.seeking = Seeking::Frame;
                Search::NextFrame(false)
            },
            (Seeking::Packet, Sought::Other) => self.read_on(),
            (Seeking::Packet, Sought::End) => {
                self.seeking = Seeking::Last;
                Search::Flush
            },
            (Seeking::Frame, Sought::Frame(pts)) => {
                let (keep, found) = look_at_frame(self.kept, pts, self.target);
                if found {
                    self.seeking = Seeking::Over;
                    Search::TakeNew
                } else if keep {
                    self.kept = Some(pts);
                    Search::NextFrame(true)
                } else {
                    Search::NextFrame(false)
                }
            },
            (Seeking::Frame, Sought::NoFrame) => self.read_on(),
            (Seeking::Last, Sought::Frame(_)) => {
                self.seeking = Seeking::Over;
                Search::TakeNew
            },
            (Seeking::Last, Sought::NoFrame) => {
                self.seeking = Seeking::Over;
                Search::GiveUp
            },
            _ => Search::Wait,
        }
    }
}

/// A frame that was kept is taken only when none came late enough, and a
/// search reads no more packets than it may.
pub proof fn lemma_hunt(h: Hunt, s: Sought)
    requires
        h.wf(),
        s matches Sought::Frame(pts) ==> pts <= i64::MAX - 100_000,
    ensures
        h.after(s).0.wf(),
        h.after(s).0.packets <= MAX_PACKETS,
        h.after(s).1 is TakeKept ==> h.after(s).0.packets == MAX_PACKETS && h.kept is Some && !good_frame(
            h.kept->0 as int,
            h.target as int,
        ),
        h.seeking is Frame && (s matches Sought::Frame(pts) && good_frame(pts as int, h.target as int)) ==> h.after(s).1
            is TakeNew,
{
}

// ---------------------------------------------------------------------
// The cache
// ---------------------------------------------------------------------

#[derive(Clone, Copy, PartialEq, Eq, Debug, Structural)]
pub enum Entry {
    Pending,
    /// The number of the thumbnail, and when it was last used.
    Ready { id: u64, used: u64 },
    Failed,
}

pub struct Item {
    pub key: Vec<char>,
    pub entry: Entry,
}

#[verifier::ext_equal]
pub struct ItemState {
    pub key: Seq<char>,
    pub entry: Entry,
}

impl View for Item {
    type V = ItemState;

    open spec fn view(&self) -> ItemState {
        ItemState { key: self.key@, entry: self.entry }
    }
}

pub open spec fn items_of(v: Seq<Item>) -> Seq<ItemState> {
    Seq::new(v.len(), |i: int| v[i]@)
}

pub struct Thumbs {
    pub items: Vec<Item>,
    pub queue: VecDeque<Vec<char>>,
    pub stamp: u64,
}

#[verifier::ext_equal]
pub struct ThumbsState {
    pub items: Seq<ItemState>,
    pub queue: Seq<Seq<char>>,
    pub stamp: u64,
}

impl View for Thumbs {
    type V = ThumbsState;

    open spec fn view(&self) -> ThumbsState {
        ThumbsState { items: items_of(self.items@), queue: views(self.queue@), stamp: self.stamp }
    }
}

/// Cache key: the path plus the size, so edited files get a fresh preview.
pub open spec fn key_of(path: Seq<char>, size: u64) -> Seq<char> {
    path.push('\0') + dec(size as nat)
}

/// Where a key stands among the items.
pub open spec fn find(items: Seq<ItemState>, key: Seq<char>) -> Option<int>
    decreases items.len(),
{
    if items.len() == 0 {
        None
    } else if items[0].key == key {
        Some(0)
    } else {
        match find(items.skip(1), key) {
            Some(i) => Some(i + 1),
            None => None,
        }
    }
}

/// Where a key stands in the queue.
pub open spec fn place(queue: Seq<Seq<char>>, key: Seq<char>) -> Option<int>
    decreases queue.len(),
{
    if queue.len() == 0 {
        None
    } else if queue[0] == key {
        Some(0)
    } else {
        match place(queue.skip(1), key) {
            Some(i) => Some(i + 1),
            None => None,
        }
    }
}

/// The item that is ready and was used the longest time ago.
pub open spec fn oldest(items: Seq<ItemState>) -> Option<int>
    decreases items.len(),
{
    if items.len() == 0 {
        None
    } else {
        let n = items.len() - 1;
        let k = oldest(items.drop_last());
        match items[n].entry {
            Entry::Ready { id, used } => match k {
                Some(j) => if used < used_at(items, j) { Some(n) } else { k },
                None => Some(n),
            },
            _ => k,
        }
    }
}

pub open spec fn used_at(items: Seq<ItemState>, i: int) -> int {
    match items[i].entry {
        Entry::Ready { id, used } => used as int,
        _ => 0,
    }
}

/// The items without those used the longest time ago, as long as there are
/// too many.
pub open spec fn evicted(items: Seq<ItemState>) -> Seq<ItemState>
    decreases items.len(),
{
    match oldest(items) {
        Some(i) => if items.len() > CACHE_LIMIT && 0 <= i < items.len() { evicted(items.remove(i)) } else { items },
        None => items,
    }
}

impl ThumbsState {
    pub open spec fn asked(self, key: Seq<char>) -> (ThumbsState, Option<u64>) {
        let stamp = (self.stamp + 1) as u64;
        match find(self.items, key) {
            Some(i) => match self.items[i].entry {
                Entry::Ready { id, used } => (
                    ThumbsState {
                        items: self.items.update(i, ItemState { key, entry: Entry::Ready { id, used: stamp } }),
                        stamp,
                        ..self
                    },
                    Some(id),
                ),
                Entry::Pending => (
                    match place(self.queue, key) {
                        Some(j) => ThumbsState { queue: seq![key] + self.queue.remove(j), stamp, ..self },
                        None => ThumbsState { stamp, ..self },
                    },
                    None,
                ),
                Entry::Failed => (ThumbsState { stamp, ..self }, None),
            },
            None => (
                ThumbsState {
                    items: self.items.push(ItemState { key, entry: Entry::Pending }),
                    queue: seq![key] + self.queue,
                    stamp,
                },
                None,
            ),
        }
    }

    pub open spec fn stored(self, key: Seq<char>, entry: Entry) -> Seq<ItemState> {
        match find(self.items, key) {
            Some(i) => self.items.update(i, ItemState { key, entry }),
            None => self.items.push(ItemState { key, entry }),
        }
    }

    pub open spec fn made(self, key: Seq<char>, id: Option<u64>) -> ThumbsState {
        let stamp = (self.stamp + 1) as u64;
        let entry = match id {
            Some(id) => Entry::Ready { id, used: stamp },
            None => Entry::Failed,
        };
        ThumbsState { items: evicted(self.stored(key, entry)), stamp, ..self }
    }
}

proof fn lemma_find(items: Seq<ItemState>, key: Seq<char>)
    ensures
        match find(items, key) {
            Some(i) => 0 <= i < items.len() && items[i].key == key && forall|j: int|
                0 <= j < i ==> (#[trigger] items[j]).key != key,
            None => forall|j: int| 0 <= j < items.len() ==> (#[trigger] items[j]).key != key,
        },
    decreases items.len(),
{
    if items.len() > 0 && items[0].key != key {
        let r = items.skip(1);
        lemma_find(r, key);
        assert forall|j: int| 0 < j < items.len() implies items[j] == r[j - 1] by {}
        match find(r, key) {
            Some(i) => {
                assert forall|j: int| 0 <= j < i + 1 implies (#[trigger] items[j]).key != key by {
                    if j > 0 {
                        assert(r[j - 1].key != key);
                    }
                }
            },
            None => {
                assert forall|j: int| 0 <= j < items.len() implies (#[trigger] items[j]).key != key by {
                    if j > 0 {
                        assert(r[j - 1].key != key);
                    }
                }
            },
        }
    }
}

proof fn lemma_first(items: Seq<ItemState>, key: Seq<char>, i: int)
    requires
        0 <= i < items.len(),
        items[i].key == key,
        forall|j: int| 0 <= j < i ==> (#[trigger] items[j]).key != key,
    ensures
        find(items, key) == Some(i),
{
    lemma_find(items, key);
    match find(items, key) {
        Some(k) => {
            if k < i {
                assert(items[k].key != key);
            } else if k > i {
                assert(items[i].key != key);
            }
        },
        None => {
            assert(items[i].key != key);
        },
    }
}

proof fn lemma_place(queue: Seq<Seq<char>>, key: Seq<char>)
    ensures
        match place(queue, key) {
            Some(i) => 0 <= i < queue.len() && queue[i] == key && forall|j: int|
                0 <= j < i ==> #[trigger] queue[j] != key,
            None => forall|j: int| 0 <= j < queue.len() ==> #[trigger] queue[j] != key,
        },
    decreases queue.len(),
{
    if queue.len() > 0 && queue[0] != key {
        let r = queue.skip(1);
        lemma_place(r, key);
        assert forall|j: int| 0 < j < queue.len() implies queue[j] == r[j - 1] by {}
        match place(r, key) {
            Some(i) => {
                assert forall|j: int| 0 <= j < i + 1 implies #[trigger] queue[j] != key by {
                    if j > 0 {
                        assert(r[j - 1] != key);
                    }
                }
            },
            None => {
                assert forall|j: int| 0 <= j < queue.len() implies #[trigger] queue[j] != key by {
                    if j > 0 {
                        assert(r[j - 1] != key);
                    }
                }
            },
        }
    }
}

proof fn lemma_oldest(items: Seq<ItemState>)
    ensures
        match oldest(items) {
            Some(i) => 0 <= i < items.len() && items[i].entry is Ready && forall|j: int|
                0 <= j < items.len() && items[j].entry is Ready ==> used_at(items, i) <= #[trigger] used_at(items, j),
            None => forall|j: int| 0 <= j < items.len() ==> !((#[trigger] items[j]).entry is Ready),
        },
    decreases items.len(),
{
    if items.len() > 0 {
        let d = items.drop_last();
        lemma_oldest(d);
        let n = items.len() - 1;
        assert forall|j: int| 0 <= j < n implies #[trigger] used_at(items, j) == used_at(d, j) by {
            assert(items[j] == d[j]);
        }
        match oldest(d) {
            Some(k) => {
                assert(items[k] == d[k]);
                assert(used_at(items, k) == used_at(d, k));
                match oldest(items) {
                    Some(i) => {
                        assert forall|j: int| 0 <= j < items.len() && items[j].entry is Ready implies used_at(items, i)
                            <= #[trigger] used_at(items, j) by {
                            if j < n {
                                assert(items[j] == d[j]);
                                assert(used_at(d, k) <= used_at(d, j));
                            }
                        }
                    },
                    None => {},
                }
            },
            None => {
                assert forall|j: int| 0 <= j < n implies !((#[trigger] items[j]).entry is Ready) by {
                    assert(items[j] == d[j]);
                }
            },
        }
    }
}

/// After a thumbnail was made, the cache is no larger than its limit,
/// unless nothing in it is ready.
pub proof fn lemma_cache_limit(items: Seq<ItemState>)
    ensures
        evicted(items).len() <= CACHE_LIMIT || oldest(evicted(items)) is None,
        evicted(items).len() <= items.len(),
    decreases items.len(),
{
    lemma_oldest(items);
    if let Some(i) = oldest(items) {
        if items.len() > CACHE_LIMIT {
            lemma_cache_limit(items.remove(i));
        }
    }
}

/// What waits to be made or could not be made is not forgotten.
pub proof fn lemma_pending_kept(items: Seq<ItemState>, k: int)
    requires
        0 <= k < items.len(),
        !(items[k].entry is Ready),
    ensures
        evicted(items).contains(items[k]),
    decreases items.len(),
{
    lemma_oldest(items);
    let x = items[k];
    if let Some(i) = oldest(items) {
        if items.len() > CACHE_LIMIT {
            let r = items.remove(i);
            let k2 = if k < i { k } else { k - 1 };
            assert(r[k2] == x);
            lemma_pending_kept(r, k2);
            assert(evicted(items) == evicted(r));
        } else {
            assert(evicted(items)[k] == x);
        }
    } else {
        assert(evicted(items)[k] == x);
    }
}

/// A thumbnail that is asked for while it waits is the next to be made.
pub proof fn lemma_asked_is_next(s: ThumbsState, key: Seq<char>)
    requires
        find(s.items, key) matches Some(i) ==> s.items[i].entry is Pending && place(s.queue, key) is Some,
    ensures
        s.asked(key).0.queue.len() > 0,
        s.asked(key).0.queue[0] == key,
{
    lemma_find(s.items, key);
    lemma_place(s.queue, key);
}

/// A thumbnail that was made is there when it is asked for, as long as the
/// cache has room; asking again changes nothing about it.
pub proof fn lemma_made_is_found(s: ThumbsState, key: Seq<char>, id: u64)
    requires
        s.items.len() < CACHE_LIMIT,
        s.stamp < u64::MAX - 1,
    ensures
        s.made(key, Some(id)).asked(key).1 == Some(id),
        s.made(key, Some(id)).asked(key).0.asked(key).1 == Some(id),
        s.made(key, None).asked(key).1 is None,
{
    lemma_find(s.items, key);
    let t = s.made(key, Some(id));
    let u = s.made(key, None);
    let n = match find(s.items, key) {
        Some(i) => i,
        None => s.items.len() as int,
    };
    assert forall|j: int| 0 <= j < n implies (#[trigger] t.items[j]).key != key && u.items[j].key != key by {
        assert(s.items[j].key != key);
    }
    lemma_first(t.items, key, n);
    lemma_first(u.items, key, n);
    let a = t.asked(key).0;
    assert forall|j: int| 0 <= j < n implies (#[trigger] a.items[j]).key != key by {
        assert(t.items[j].key != key);
    }
    lemma_first(a.items, key, n);
}

/// What is kept of a full cache was used no earlier than what goes.
pub proof fn lemma_least_used_go(items: Seq<ItemState>, i: int, j: int)
    requires
        0 <= i < items.len(),
        0 <= j < items.len(),
        items.no_duplicates(),
        items[i].entry is Ready,
        items[j].entry is Ready,
        !evicted(items).contains(items[i]),
        evicted(items).contains(items[j]),
    ensures
        used_at(items, i) <= used_at(items, j),
    decreases items.len(),
{
    lemma_oldest(items);
    if items.len() <= CACHE_LIMIT || oldest(items) is None {
        assert(evicted(items) == items);
        assert(items.contains(items[i]));
    } else {
        let o = oldest(items)->0;
        let r = items.remove(o);
        lemma_evicted_within(r, items[j]);
        if i != o {
            let k = choose|k: int| 0 <= k < r.len() && r[k] == items[j];
            let i2 = if i < o { i } else { i - 1 };
            assert(r[i2] == items[i]);
            assert(r.no_duplicates()) by {
                assert forall|x: int, y: int| 0 <= x < r.len() && 0 <= y < r.len() && x != y implies r[x] != r[y] by {
                    let x2 = if x < o { x } else { x + 1 };
                    let y2 = if y < o { y } else { y + 1 };
                    assert(items[x2] != items[y2]);
                }
            }
            lemma_least_used_go(r, i2, k);
        }
    }
}

proof fn lemma_evicted_within(items: Seq<ItemState>, x: ItemState)
    requires
        evicted(items).contains(x),
    ensures
        items.contains(x),
    decreases items.len(),
{
    lemma_oldest(items);
    if items.len() > CACHE_LIMIT && oldest(items) is Some {
        let o = oldest(items)->0;
        let r = items.remove(o);
        lemma_evicted_within(r, x);
        let k = choose|k: int| 0 <= k < r.len() && r[k] == x;
        assert(items[if k < o { k } else { k + 1 }] == x);
    }
}

/// Cache key: the path plus the size.
pub fn key(path: &[char], size: u64) -> (r: Vec<char>)
    ensures
        r@ == key_of(path@, size),
{
    let mut k: Vec<char> = copy(path);
    k.push('\0');
    push_dec(&mut k, size);
    k
}

/// The path that a cache key begins with.
pub fn path_of_key(k: &[char]) -> (r: Vec<char>)
    ensures
        exists|n: int| 0 <= n <= k@.len() && #[trigger] k@.take(n) == r@ && !r@.contains('\0') && (n == k@.len() || k@[n]
            == '\0'),
{
    match find_char(k, '\0') {
        Some(i) => {
            let p: Vec<char> = copy_range(k, 0, i);
            proof {
                assert(p@ =~= k@.take(i as int));
            }
            p
        },
        None => {
            proof {
                assert(k@.take(k@.len() as int) =~= k@);
            }
            copy(k)
        },
    }
}

impl Thumbs {
    pub fn new() -> (r: Thumbs)
        ensures
            r@ == (ThumbsState { items: Seq::empty(), queue: Seq::empty(), stamp: 0 }),
    {
        let r: Thumbs = Thumbs { items: Vec::new(), queue: VecDeque::new(), stamp: 0 };
        proof {
            assert(r@.items =~= Seq::<ItemState>::empty());
            assert(r@.queue =~= Seq::<Seq<char>>::empty());
        }
        r
    }

    fn locate(&self, key: &[char]) -> (r: Option<usize>)
        ensures
            match r {
                Some(i) => find(self@.items, key@) == Some(i as int) && i < self.items@.len(),
                None => find(self@.items, key@) is None,
            },
    {
        let ghost all = items_of(self.items@);
        let mut i: usize = 0;
        while i < self.items.len()
            invariant
                i <= self.items@.len(),
                all == items_of(self.items@),
                forall|j: int| 0 <= j < i ==> (#[trigger] all[j]).key != key@,
            decreases self.items@.len() - i,
        {
            if same(&self.items[i].key, key) {
                proof {
                    lemma_first(all, key@, i as int);
                }
                return Some(i);
            }
            i += 1;
        }
        proof {
            lemma_find(all, key@);
        }
        None
    }

    fn to_front(&mut self, key: &[char])
        ensures
            final(self)@ == (match place(old(self)@.queue, key@) {
                Some(j) => ThumbsState { queue: seq![key@] + old(self)@.queue.remove(j), ..old(self)@ },
                None => old(self)@,
            }),
    {
        let ghost q0 = views(self.queue@);
        let n: usize = self.queue.len();
        let mut i: usize = 0;
        while i < n
            invariant
                i <= n,
                n == self.queue@.len(),
                self@ == old(self)@,
                q0 == views(self.queue@),
                forall|j: int| 0 <= j < i ==> #[trigger] q0[j] != key@,
            decreases n - i,
        {
            if same(&self.queue[i], key) {
                proof {
                    lemma_place(q0, key@);
                    match place(q0, key@) {
                        Some(k) => {
                            if k < i {
                                assert(q0[k] != key@);
                            } else if k > i {
                                assert(q0[i as int] != key@);
                            }
                        },
                        None => {
                            assert(q0[i as int] != key@);
                        },
                    }
                }
                if let Some(k) = self.queue.remove(i) {
                    self.queue.push_front(k);
                }
                proof {
                    assert(views(self.queue@) =~= seq![key@] + q0.remove(i as int));
                }
                return ;
            }
            i += 1;
        }
        proof {
            lemma_place(q0, key@);
        }
    }

    /// The number of the thumbnail with this key if it is ready; otherwise
    /// queue it (most recent requests first, so what is on screen wins).
    pub fn get(&mut self, key: &[char]) -> (r: Option<u64>)
        requires
            old(self)@.stamp < u64::MAX,
        ensures
            (final(self)@, r) == old(self)@.asked(key@),
    {
        let ghost s0 = self@;
        self.stamp += 1;
        match self.locate(key) {
            Some(i) => {
                proof {
                    lemma_find(s0.items, key@);
                }
                match self.items[i].entry {
                    Entry::Ready { id, .. } => {
                        let it: Item = Item { key: copy(key), entry: Entry::Ready { id, used: self.stamp } };
                        let ghost it0 = it@;
                        self.items.set(i, it);
                        proof {
                            assert(items_of(self.items@) =~= s0.items.update(i as int, it0));
                        }
                        Some(id)
                    },
                    Entry::Pending => {
                        self.to_front(key);
                        None
                    },
                    Entry::Failed => None,
                }
            },
            None => {
                let it: Item = Item { key: copy(key), entry: Entry::Pending };
                let ghost it0 = it@;
                self.items.push(it);
                self.queue.push_front(copy(key));
                proof {
                    assert(items_of(self.items@) =~= s0.items.push(it0));
                    assert(views(self.queue@) =~= seq![key@] + s0.queue);
                }
                None
            },
        }
    }

    /// The thumbnail to make next.
    pub fn next_job(&mut self) -> (r: Option<Vec<char>>)
        ensures
            match r {
                Some(k) => old(self)@.queue.len() > 0 && k@ == old(self)@.queue[0] && final(self)@ == (ThumbsState {
                    queue: old(self)@.queue.skip(1),
                    ..old(self)@
                }),
                None => old(self)@.queue.len() == 0 && final(self)@ == old(self)@,
            },
    {
        let ghost q0 = views(self.queue@);
        let r: Option<Vec<char>> = self.queue.pop_front();
        proof {
            if r is Some {
                assert(r->0@ == q0[0]);
                assert(views(self.queue@) =~= q0.skip(1));
            }
        }
        r
    }

    fn find_oldest(&self) -> (r: Option<usize>)
        ensures
            match r {
                Some(i) => oldest(self@.items) == Some(i as int) && i < self.items@.len(),
                None => oldest(self@.items) is None,
            },
    {
        let ghost all = items_of(self.items@);
        let mut best: Option<usize> = None;
        let mut used_best: u64 = 0;
        let mut i: usize = 0;
        while i < self.items.len()
            invariant
                i <= self.items@.len(),
                all == items_of(self.items@),
                match best {
                    Some(b) => oldest(all.take(i as int)) == Some(b as int) && b < i && used_best == used_at(
                        all,
                        b as int,
                    ),
                    None => oldest(all.take(i as int)) is None,
                },
            decreases self.items@.len() - i,
        {
            proof {
                assert(all.take(i + 1).drop_last() =~= all.take(i as int));
                assert(all.take(i + 1)[i as int] == self.items@[i as int]@);
                assert forall|j: int| 0 <= j <= i implies #[trigger] used_at(all.take(i + 1), j) == used_at(all, j) by {
                    assert(all.take(i + 1)[j] == all[j]);
                }
            }
            if let Entry::Ready { used, .. } = self.items[i].entry {
                let better: bool = match best {
                    Some(_) => used < used_best,
                    None => true,
                };
                if better {
                    best = Some(i);
                    used_best = used;
                }
            }
            i += 1;
        }
        proof {
            assert(all.take(all.len() as int) =~= all);
        }
        best
    }

    /// A thumbnail was made, or could not be. Forget the least recently
    /// used previews when the cache is full.
    pub fn finish(&mut self, key: Vec<char>, id: Option<u64>)
        requires
            old(self)@.stamp < u64::MAX,
        ensures
            final(self)@ == old(self)@.made(key@, id),
    {
        let ghost s0 = self@;
        self.stamp += 1;
        let entry: Entry = match id {
            Some(id) => Entry::Ready { id, used: self.stamp },
            None => Entry::Failed,
        };
        let ghost stored = s0.stored(key@, entry);
        let at: Option<usize> = self.locate(&key);
        let it: Item = Item { key, entry };
        let ghost it0 = it@;
        match at {
            Some(i) => {
                self.items.set(i, it);
                proof {
                    assert(items_of(self.items@) =~= s0.items.update(i as int, it0));
                }
            },
            None => {
                self.items.push(it);
                proof {
                    assert(items_of(self.items@) =~= s0.items.push(it0));
                }
            },
        }
        let mut more: bool = true;
        while more
            invariant
                evicted(items_of(self.items@)) == evicted(stored),
                !more ==> items_of(self.items@) == evicted(stored),
                self@.queue == s0.queue,
                self@.stamp == s0.stamp + 1,
            decreases self.items@.len(), (if more { 1int } else { 0 }),
        {
            let ghost now = items_of(self.items@);
            if self.items.len() <= CACHE_LIMIT {
                more = false;
            } else {
                match self.find_oldest() {
                    Some(i) => {
                        let _ = self.items.remove(i);
                        proof {
                            assert(items_of(self.items@) =~= now.remove(i as int));
                        }
                    },
                    None => {
                        more = false;
                    },
                }
            }
        }
    }
}

} // verus!
