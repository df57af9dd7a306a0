//! Where the user has been.

use crate::text::copy;
use vstd::prelude::*;

verus! {

/// The address of a page: how it is written, its host, and whether it is
/// one of the browser's own.
pub struct Address {
    pub text: Vec<char>,
    pub host: Vec<char>,
    pub about: bool,
}

#[verifier::ext_equal]
pub struct AddressState {
    pub text: Seq<char>,
    pub host: Seq<char>,
    pub about: bool,
}

impl View for Address {
    type V = AddressState;

    open spec fn view(&self) -> AddressState {
        AddressState { text: self.text@, host: self.host@, about: self.about }
    }
}

pub open spec fn addresses(v: Seq<Address>) -> Seq<AddressState> {
    Seq::new(v.len(), |i: int| v[i]@)
}

pub open spec fn opt_address(o: Option<Address>) -> Option<AddressState> {
    match o {
        Some(a) => Some(a@),
        None => None,
    }
}

pub struct History {
    pub back: Vec<Address>,
    pub forward: Vec<Address>,
    pub url: Option<Address>,
}

#[verifier::ext_equal]
pub struct HistoryState {
    pub back: Seq<AddressState>,
    pub forward: Seq<AddressState>,
    pub url: Option<AddressState>,
}

impl View for History {
    type V = HistoryState;

    open spec fn view(&self) -> HistoryState {
        HistoryState { back: addresses(self.back@), forward: addresses(self.forward@), url: opt_address(self.url) }
    }
}

impl HistoryState {
    /// The page to come back to: the browser's own pages are not kept.
    pub open spec fn leaving(self) -> Option<AddressState> {
        match self.url {
            Some(u) => if u.about { None } else { Some(u) },
            None => None,
        }
    }

    pub open spec fn at(self, u: AddressState) -> HistoryState {
        HistoryState { url: Some(u), ..self }
    }

    /// At another page; `record` says whether one can go back from it.
    pub open spec fn visited(self, u: AddressState, record: bool) -> HistoryState {
        match self.leaving() {
            Some(cur) => if record {
                HistoryState { back: self.back.push(cur), forward: Seq::empty(), url: Some(u) }
            } else {
                self.at(u)
            },
            None => self.at(u),
        }
    }

    pub open spec fn gone_back(self) -> HistoryState {
        if self.back.len() == 0 {
            self
        } else {
            HistoryState {
                back: self.back.drop_last(),
                forward: match self.leaving() {
                    Some(cur) => self.forward.push(cur),
                    None => self.forward,
                },
                url: Some(self.back.last()),
            }
        }
    }

    pub open spec fn gone_forward(self) -> HistoryState {
        if self.forward.len() == 0 {
            self
        } else {
            HistoryState {
                forward: self.forward.drop_last(),
                back: match self.leaving() {
                    Some(cur) => self.back.push(cur),
                    None => self.back,
                },
                url: Some(self.forward.last()),
            }
        }
    }
}

/// Going back and forward again leads to where one was.
pub proof fn lemma_back_and_forward(s: HistoryState)
    requires
        s.back.len() > 0,
        s.leaving() is Some,
        !s.back.last().about,
    ensures
        s.gone_back().gone_forward() == s,
{
    let t = s.gone_back();
    assert(t.forward.drop_last() =~= s.forward);
    assert(t.back.push(s.back.last()) =~= s.back);
}

/// A page that was visited from another can be left with one step back.
pub proof fn lemma_visit_and_back(s: HistoryState, u: AddressState)
    requires
        s.leaving() is Some,
    ensures
        s.visited(u, true).gone_back().url == s.url,
        s.visited(u, true).gone_back().back == s.back,
{
    assert(s.back.push(s.leaving()->0).drop_last() =~= s.back);
}

/// None of the browser's own pages is ever gone back to.
pub open spec fn no_about(s: HistoryState) -> bool {
    &&& forall|i: int| 0 <= i < s.back.len() ==> !(#[trigger] s.back[i]).about
    &&& forall|i: int| 0 <= i < s.forward.len() ==> !(#[trigger] s.forward[i]).about
}

pub proof fn lemma_no_about(s: HistoryState, u: AddressState, record: bool)
    requires
        no_about(s),
    ensures
        no_about(s.visited(u, record)),
        no_about(s.gone_back()),
        no_about(s.gone_forward()),
{
}

/// Going to a page from another one leaves nothing to go forward to, but a
/// page that is only replaced keeps both ways open; and where there is no way
/// back or forward one stays.
pub proof fn lemma_ways(s: HistoryState, u: AddressState)
    ensures
        s.visited(u, true).url == Some(u),
        s.visited(u, false) == (HistoryState { url: Some(u), ..s }),
        s.leaving() is Some ==> s.visited(u, true).forward.len() == 0 && s.visited(u, true).back.len() == s.back.len()
            + 1,
        s.leaving() is None ==> s.visited(u, true).back == s.back,
        s.back.len() > 0 ==> s.gone_back().url == Some(s.back.last()) && s.gone_back().back.len() == s.back.len() - 1,
        s.forward.len() > 0 ==> s.gone_forward().url == Some(s.forward.last()),
        s.back.len() == 0 ==> s.gone_back() == s,
        s.forward.len() == 0 ==> s.gone_forward() == s,
{
}

pub fn copy_address(a: &Address) -> (r: Address)
    ensures
        r@ == a@,
{
    Address { text: copy(&a.text), host: copy(&a.host), about: a.about }
}

impl History {
    pub fn new() -> (r: History)
        ensures
            r@ == (HistoryState { back: Seq::empty(), forward: Seq::empty(), url: None }),
    {
        let r: History = History { back: Vec::new(), forward: Vec::new(), url: None };
        proof {
            assert(r@.back =~= Seq::<AddressState>::empty());
            assert(r@.forward =~= Seq::<AddressState>::empty());
        }
        r
    }

    fn take_leaving(&mut self) -> (r: Option<Address>)
        ensures
            opt_address(r) == old(self)@.leaving(),
            final(self)@ == (HistoryState { url: None, ..old(self)@ }),
    {
        let mut cur: Option<Address> = None;
        std::mem::swap(&mut cur, &mut self.url);
        match cur {
            Some(u) => if u.about { None } else { Some(u) },
            None => None,
        }
    }

    pub fn visit(&mut self, u: Address, record: bool)
        ensures
            final(self)@ == old(self)@.visited(u@, record),
    {
        let ghost b0 = self@.back;
        if record {
            if let Some(cur) = self.take_leaving() {
                let ghost c0 = cur@;
                self.back.push(cur);
                self.forward = Vec::new();
                proof {
                    assert(addresses(self.back@) =~= b0.push(c0));
                    assert(addresses(self.forward@) =~= Seq::<AddressState>::empty());
                }
            }
        }
        self.url = Some(u);
    }

    /// Go back; the page that is to be loaded.
    pub fn go_back(&mut self) -> (r: Option<Address>)
        ensures
            final(self)@ == old(self)@.gone_back(),
            opt_address(r) == if old(self)@.back.len() > 0 { Some(old(self)@.back.last()) } else { None },
    {
        let ghost s = self@;
        match self.back.pop() {
            Some(u) => {
                proof {
                    assert(s.back.last() == u@);
                    assert(addresses(self.back@) =~= s.back.drop_last());
                }
                if let Some(cur) = self.take_leaving() {
                    let ghost c0 = cur@;
                    self.forward.push(cur);
                    proof {
                        assert(addresses(self.forward@) =~= s.forward.push(c0));
                    }
                }
                self.url = Some(copy_address(&u));
                Some(u)
            },
            None => None,
        }
    }

    /// Go forward; the page that is to be loaded.
    pub fn go_forward(&mut self) -> (r: Option<Address>)
        ensures
            final(self)@ == old(self)@.gone_forward(),
            opt_address(r) == if old(self)@.forward.len() > 0 { Some(old(self)@.forward.last()) } else { None },
    {
        let ghost s = self@;
        match self.forward.pop() {
            Some(u) => {
                proof {
                    assert(s.forward.last() == u@);
                    assert(addresses(self.forward@) =~= s.forward.drop_last());
                }
                if let Some(cur) = self.take_leaving() {
                    let ghost c0 = cur@;
                    self.back.push(cur);
                    proof {
                        assert(addresses(self.back@) =~= s.back.push(c0));
                    }
                }
                self.url = Some(copy_address(&u));
                Some(u)
            },
            None => None,
        }
    }

    /// The page to load again.
    pub fn reload(&self) -> (r: Option<Address>)
        ensures
            opt_address(r) == self@.leaving(),
    {
        match &self.url {
            Some(u) => if u.about { None } else { Some(copy_address(u)) },
            None => None,
        }
    }
}

} // verus!
