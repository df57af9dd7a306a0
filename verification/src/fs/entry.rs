//! Directory entries, and the order in which a directory is listed.

use super::path::Timestamp;
use crate::text::{push_all, to_chars};
use vstd::prelude::*;

verus! {

/// What can go wrong with a file.
#[derive(Clone, Copy, Debug, PartialEq, Eq, Structural)]
pub enum FsError {
    Io,
    NotFound,
    AlreadyExists,
    NotADirectory,
    IsADirectory,
    NotEmpty,
    NoSpace,
    InvalidPath,
}

/// A file or folder.
#[derive(Debug)]
pub struct DirEntry {
    pub name: String,
    pub is_dir: bool,
    pub hidden: bool,
    pub size: u32,
    pub first_cluster: u32,
    pub created: Timestamp,
    pub modified: Timestamp,
}

/// What an entry says.
pub struct EntryState {
    pub name: Seq<char>,
    pub is_dir: bool,
    pub hidden: bool,
    pub size: u32,
    pub first_cluster: u32,
    pub created: Timestamp,
    pub modified: Timestamp,
}

impl View for DirEntry {
    type V = EntryState;

    open spec fn view(&self) -> EntryState {
        EntryState {
            name: self.name@,
            is_dir: self.is_dir,
            hidden: self.hidden,
            size: self.size,
            first_cluster: self.first_cluster,
            created: self.created,
            modified: self.modified,
        }
    }
}

pub open spec fn entries_of(v: Seq<DirEntry>) -> Seq<EntryState> {
    Seq::new(v.len(), |i: int| v[i]@)
}

pub open spec fn no_time() -> Timestamp {
    Timestamp { year: 1980, month: 1, day: 1, hour: 0, minute: 0, second: 0 }
}

/// A folder that no disk holds, such as a mount point.
pub open spec fn virtual_entry(name: Seq<char>) -> EntryState {
    EntryState {
        name,
        is_dir: true,
        hidden: false,
        size: 0,
        first_cluster: 0,
        created: no_time(),
        modified: no_time(),
    }
}

impl DirEntry {
    pub fn virtual_dir(name: &str) -> (r: DirEntry)
        ensures
            r@ == virtual_entry(name@),
    {
        let t: Timestamp = Timestamp { year: 1980, month: 1, day: 1, hour: 0, minute: 0, second: 0 };
        DirEntry {
            name: crate::text::to_text(&to_chars(name)),
            is_dir: true,
            hidden: false,
            size: 0,
            first_cluster: 0,
            created: t,
            modified: t,
        }
    }

    pub fn is_hidden(&self) -> (r: bool)
        ensures
            r == self@.hidden,
    {
        self.hidden
    }
}

/// What `char::to_lowercase` makes of a character.
pub uninterp spec fn char_lowered(c: char) -> Seq<char>;

/// `char::to_lowercase` of the standard library: the lower case of a
/// character, one or more characters, depends on the character alone.
#[verifier::external_body]
fn char_lowercase(c: char) -> (r: Vec<char>)
    ensures
        r@ == char_lowered(c),
{
    c.to_lowercase().collect()
}

/// The text by which a name is sorted.
pub open spec fn sort_key(s: Seq<char>) -> Seq<char>
    decreases s.len(),
{
    if s.len() == 0 { Seq::empty() } else { sort_key(s.drop_last()) + char_lowered(s.last()) }
}

/// Whether text `a` comes before `b`, character by character.
pub open spec fn text_before(a: Seq<char>, b: Seq<char>) -> bool
    decreases a.len(),
{
    if b.len() == 0 {
        false
    } else if a.len() == 0 {
        true
    } else if a[0] != b[0] {
        a[0] < b[0]
    } else {
        text_before(a.skip(1), b.skip(1))
    }
}

/// Folders come first, then names in alphabetical order.
pub open spec fn entry_before(a: EntryState, b: EntryState) -> bool {
    if a.is_dir != b.is_dir { a.is_dir } else { text_before(sort_key(a.name), sort_key(b.name)) }
}

/// How many entries of a sorted listing stay in front of `e`: all up to
/// the last that does not come after it.
pub open spec fn rank(s: Seq<EntryState>, e: EntryState) -> int
    decreases s.len(),
{
    if s.len() == 0 {
        0
    } else if entry_before(e, s.last()) {
        rank(s.drop_last(), e)
    } else {
        s.len() as int
    }
}

/// The entries in order; entries of equal rank keep theirs.
pub open spec fn sorted(s: Seq<EntryState>) -> Seq<EntryState>
    decreases s.len(),
{
    if s.len() == 0 {
        Seq::empty()
    } else {
        let before = sorted(s.drop_last());
        before.insert(rank(before, s.last()), s.last())
    }
}

// ---------------------------------------------------------------------
// Laws
// ---------------------------------------------------------------------

proof fn lemma_text_not_before_itself(a: Seq<char>)
    ensures
        !text_before(a, a),
    decreases a.len(),
{
    if a.len() > 0 {
        lemma_text_not_before_itself(a.skip(1));
    }
}

/// No text comes before itself, and of two texts only one comes first.
pub proof fn lemma_text_before_asymmetric(a: Seq<char>, b: Seq<char>)
    ensures
        !text_before(a, a),
        text_before(a, b) ==> !text_before(b, a),
    decreases a.len(),
{
    lemma_text_not_before_itself(a);
    if a.len() > 0 && b.len() > 0 && a[0] == b[0] {
        lemma_text_before_asymmetric(a.skip(1), b.skip(1));
    }
}

/// If `a` does not come after `b` nor `b` after `c`, then `a` does not come
/// after `c`.
pub proof fn lemma_text_before_transitive(a: Seq<char>, b: Seq<char>, c: Seq<char>)
    requires
        !text_before(b, a),
        !text_before(c, b),
    ensures
        !text_before(c, a),
    decreases a.len(),
{
    if a.len() > 0 && b.len() > 0 && c.len() > 0 {
        if a[0] == b[0] && b[0] == c[0] {
            lemma_text_before_transitive(a.skip(1), b.skip(1), c.skip(1));
        }
    }
}

proof fn lemma_entry_transitive(a: EntryState, b: EntryState, c: EntryState)
    requires
        !entry_before(b, a),
        !entry_before(c, b),
    ensures
        !entry_before(c, a),
{
    if a.is_dir == b.is_dir && b.is_dir == c.is_dir {
        lemma_text_before_transitive(sort_key(a.name), sort_key(b.name), sort_key(c.name));
    }
}

pub open spec fn in_order(s: Seq<EntryState>) -> bool {
    forall|i: int, j: int| 0 <= i < j < s.len() ==> !entry_before(#[trigger] s[j], #[trigger] s[i])
}

proof fn lemma_rank(s: Seq<EntryState>, e: EntryState)
    requires
        in_order(s),
    ensures
        0 <= rank(s, e) <= s.len(),
        forall|i: int| rank(s, e) <= i < s.len() ==> entry_before(e, #[trigger] s[i]),
        rank(s, e) > 0 ==> !entry_before(e, s[rank(s, e) - 1]),
    decreases s.len(),
{
    if s.len() > 0 && entry_before(e, s.last()) {
        lemma_rank(s.drop_last(), e);
        assert forall|i: int| rank(s, e) <= i < s.len() implies entry_before(e, #[trigger] s[i]) by {
            if i < s.len() - 1 {
                assert(s.drop_last()[i] == s[i]);
            }
        }
    }
}

proof fn lemma_insert_in_order(s: Seq<EntryState>, e: EntryState)
    requires
        in_order(s),
    ensures
        in_order(s.insert(rank(s, e), e)),
{
    lemma_rank(s, e);
    let k = rank(s, e);
    let t = s.insert(k, e);
    assert forall|i: int, j: int| 0 <= i < j < t.len() implies !entry_before(#[trigger] t[j], #[trigger] t[i]) by {
        if j < k {
            assert(t[i] == s[i] && t[j] == s[j]);
        } else if j == k {
            assert(t[i] == s[i]);
            if i < k - 1 {
                assert(!entry_before(s[k - 1], s[i]));
                lemma_entry_transitive(s[i], s[k - 1], e);
            }
        } else {
            assert(t[j] == s[j - 1]);
            if i < k {
                assert(t[i] == s[i]);
            } else if i == k {
                assert(entry_before(e, s[j - 1]));
                lemma_text_before_asymmetric(sort_key(e.name), sort_key(s[j - 1].name));
            } else {
                assert(t[i] == s[i - 1]);
            }
        }
    }
}

/// A sorted listing is in order, and holds the same entries as before.
pub proof fn lemma_sorted(s: Seq<EntryState>)
    ensures
        in_order(sorted(s)),
        sorted(s).to_multiset() == s.to_multiset(),
        sorted(s).len() == s.len(),
    decreases s.len(),
{
    broadcast use vstd::seq_lib::group_to_multiset_ensures;

    if s.len() > 0 {
        let b = sorted(s.drop_last());
        lemma_sorted(s.drop_last());
        lemma_insert_in_order(b, s.last());
        lemma_rank(b, s.last());
        assert(s.drop_last().push(s.last()) =~= s);
    } else {
        assert(sorted(s) =~= s);
    }
}

// ---------------------------------------------------------------------
// Functions
// ---------------------------------------------------------------------

fn key_of(name: &str) -> (r: Vec<char>)
    ensures
        r@ == sort_key(name@),
{
    let v: Vec<char> = to_chars(name);
    let mut out: Vec<char> = Vec::new();
    let mut i: usize = 0;
    while i < v.len()
        invariant
            i <= v@.len(),
            out@ == sort_key(v@.take(i as int)),
        decreases v@.len() - i,
    {
        proof {
            assert(v@.take(i + 1).drop_last() =~= v@.take(i as int));
        }
        push_all(&mut out, &char_lowercase(v[i]));
        i += 1;
    }
    proof {
        assert(v@.take(v@.len() as int) =~= v@);
    }
    out
}

pub fn is_before(a: &[char], b: &[char]) -> (r: bool)
    ensures
        r == text_before(a@, b@),
{
    let mut i: usize = 0;
    proof {
        assert(a@.skip(0) =~= a@);
        assert(b@.skip(0) =~= b@);
    }
    while i < a.len() && i < b.len()
        invariant
            i <= a@.len(),
            i <= b@.len(),
            text_before(a@, b@) == text_before(a@.skip(i as int), b@.skip(i as int)),
        decreases a@.len() - i,
    {
        if a[i] != b[i] {
            return a[i] < b[i];
        }
        proof {
            assert(a@.skip(i as int).skip(1) =~= a@.skip(i + 1));
            assert(b@.skip(i as int).skip(1) =~= b@.skip(i + 1));
        }
        i += 1;
    }
    i < b.len()
}

/// Whether `a` is listed before `b`.
pub fn listed_before(a: &DirEntry, b: &DirEntry) -> (r: bool)
    ensures
        r == entry_before(a@, b@),
{
    if a.is_dir != b.is_dir {
        a.is_dir
    } else {
        is_before(&key_of(a.name.as_str()), &key_of(b.name.as_str()))
    }
}

/// Sort with folders first, then by name.
pub fn sort_entries(entries: Vec<DirEntry>) -> (r: Vec<DirEntry>)
    ensures
        entries_of(r@) == sorted(entries_of(entries@)),
{
    let ghost all = entries_of(entries@);
    let mut rest: Vec<DirEntry> = entries;
    let mut out: Vec<DirEntry> = Vec::new();
    // Take the entries from the front one after the other.
    while rest.len() > 0
        invariant
            rest@.len() <= all.len(),
            entries_of(rest@) == all.skip(all.len() - rest@.len()),
            entries_of(out@) == sorted(all.take(all.len() - rest@.len())),
        decreases rest@.len(),
    {
        let ghost k = all.len() - rest@.len();
        let ghost r0 = entries_of(rest@);
        let e: DirEntry = rest.remove(0);
        let mut at: usize = out.len();
        proof {
            assert(e@ == all[k]) by {
                assert(r0[0] == all[k]);
            }
            assert(all.take(k + 1).drop_last() =~= all.take(k));
            assert(entries_of(out@).take(at as int) =~= entries_of(out@));
        }
        while at > 0 && listed_before(&e, &out[at - 1])
            invariant
                at <= out@.len(),
                rank(entries_of(out@), e@) == rank(entries_of(out@).take(at as int), e@),
            decreases at,
        {
            at -= 1;
            proof {
                assert(entries_of(out@).take(at + 1).drop_last() =~= entries_of(out@).take(at as int));
            }
        }
        let ghost o0 = entries_of(out@);
        out.insert(at, e);
        proof {
            assert(entries_of(out@) =~= o0.insert(at as int, e@));
            assert(entries_of(rest@) =~= all.skip(k + 1)) by {
                assert(r0.skip(1) =~= all.skip(k + 1));
                assert(entries_of(rest@) =~= r0.skip(1));
            }
        }
    }
    proof {
        assert(all.take(all.len() as int) =~= all);
    }
    out
}

/// A sorted listing has all folders before all files, each kind by name
/// without regard to case, and holds what was listed.
pub proof fn lemma_folders_first(s: Seq<EntryState>, i: int, j: int)
    requires
        0 <= i < j < s.len(),
    ensures
        sorted(s).len() == s.len(),
        sorted(s)[j].is_dir ==> sorted(s)[i].is_dir,
        sorted(s)[i].is_dir == sorted(s)[j].is_dir ==> !text_before(
            sort_key(sorted(s)[j].name),
            sort_key(sorted(s)[i].name),
        ),
{
    lemma_sorted(s);
    lemma_sorted_len(s);
    assert(!entry_before(sorted(s)[j], sorted(s)[i]));
}

proof fn lemma_sorted_len(s: Seq<EntryState>)
    ensures
        sorted(s).len() == s.len(),
    decreases s.len(),
{
    if s.len() > 0 {
        lemma_sorted_len(s.drop_last());
        lemma_sorted(s.drop_last());
        lemma_rank(sorted(s.drop_last()), s.last());
    }
}

} // verus!
