//! The network tests of the Network page.

use super::labels::{ping_result, ping_summary, sum};
use crate::text::{push_all, to_chars, to_text};
use vstd::prelude::*;

verus! {

/// How long a reply to a ping may take.
pub const PING_MS: u32 = 2000;

/// A test under way: three pings, or the lookup of a name.
pub struct NetTest {
    /// The address that is pinged, if one is.
    pub target: Option<Vec<char>>,
    /// How many pings were sent.
    pub sent: u16,
    /// How long each reply took, in microseconds.
    pub replies: Vec<u64>,
    /// Why the last ping without a reply had none.
    pub error: Vec<char>,
    /// What the lookup came to: an address, or an error.
    pub answer: Option<Result<Vec<char>, Vec<char>>>,
}

#[verifier::ext_equal]
pub struct NetTestState {
    pub target: Option<Seq<char>>,
    pub sent: int,
    pub replies: Seq<u64>,
    pub error: Seq<char>,
    pub answer: Option<Result<Seq<char>, Seq<char>>>,
}

/// What a test wants next.
pub enum NetAsk {
    /// A ping with this number, and `PING_MS` for the reply.
    Ping(u16),
    /// The address of example.com.
    Resolve,
    /// Nothing: what it found, and whether all is well.
    Done(Vec<char>, bool),
}

pub enum NetAskState {
    Ping(u16),
    Resolve,
    Done(Seq<char>, bool),
}

impl View for NetAsk {
    type V = NetAskState;

    open spec fn view(&self) -> NetAskState {
        match *self {
            NetAsk::Ping(i) => NetAskState::Ping(i),
            NetAsk::Resolve => NetAskState::Resolve,
            NetAsk::Done(t, ok) => NetAskState::Done(t@, ok),
        }
    }
}

impl View for NetTest {
    type V = NetTestState;

    open spec fn view(&self) -> NetTestState {
        NetTestState {
            target: match self.target {
                Some(t) => Some(t@),
                None => None,
            },
            sent: self.sent as int,
            replies: self.replies@,
            error: self.error@,
            answer: match self.answer {
                Some(Ok(a)) => Some(Ok(a@)),
                Some(Err(e)) => Some(Err(e@)),
                None => None,
            },
        }
    }
}

impl NetTestState {
    pub open spec fn wf(self) -> bool {
        0 <= self.sent <= 3 && self.replies.len() <= self.sent && sum(self.replies) <= u64::MAX
    }

    /// The test of the gateway, of the Internet, or of names.
    pub open spec fn start(kind: u8, gateway: Option<Seq<char>>) -> NetTestState {
        NetTestState {
            target: if kind == 0 {
                Some(
                    match gateway {
                        Some(g) => g,
                        None => "0.0.0.0"@,
                    },
                )
            } else if kind == 1 {
                Some("1.1.1.1"@)
            } else {
                None
            },
            sent: 0,
            replies: Seq::empty(),
            error: Seq::empty(),
            answer: None,
        }
    }

    pub open spec fn asks(self) -> NetAskState {
        match self.target {
            Some(t) => if self.sent < 3 {
                NetAskState::Ping(self.sent as u16)
            } else {
                let (text, ok) = ping_result(t, self.replies, self.error);
                NetAskState::Done(text, ok)
            },
            None => match self.answer {
                None => NetAskState::Resolve,
                Some(Ok(a)) => NetAskState::Done("example.com resolves to "@ + a, true),
                Some(Err(e)) => NetAskState::Done("Looking up example.com failed: "@ + e, false),
            },
        }
    }

    /// After a ping: how long the reply took, or why there was none.
    pub open spec fn pinged(self, r: Result<u64, Seq<char>>) -> NetTestState {
        match r {
            Ok(us) => NetTestState { sent: self.sent + 1, replies: self.replies.push(us), ..self },
            Err(e) => NetTestState { sent: self.sent + 1, error: e, ..self },
        }
    }
}

impl NetTest {
    /// The test of the gateway, of the Internet, or of names. `gateway` is
    /// that of the connection, if there is one.
    pub fn start(kind: u8, gateway: Option<Vec<char>>) -> (r: NetTest)
        ensures
            r@.wf(),
            r@ == NetTestState::start(
                kind,
                match gateway {
                    Some(g) => Some(g@),
                    None => None,
                },
            ),
    {
        let target: Option<Vec<char>> = match kind {
            0 => match gateway {
                Some(g) => Some(g),
                None => Some(to_chars("0.0.0.0")),
            },
            1 => Some(to_chars("1.1.1.1")),
            _ => None,
        };
        NetTest { target, sent: 0, replies: Vec::new(), error: Vec::new(), answer: None }
    }

    /// What the test wants next.
    pub fn ask(&self) -> (r: NetAsk)
        requires
            self@.wf(),
        ensures
            r@ == self@.asks(),
    {
        match &self.target {
            Some(t) => {
                if self.sent < 3 {
                    return NetAsk::Ping(self.sent);
                }
                let (text, ok) = ping_summary(to_text(t).as_str(), &self.replies, to_text(&self.error).as_str());
                NetAsk::Done(text, ok)
            },
            None => match &self.answer {
                None => NetAsk::Resolve,
                Some(Ok(a)) => {
                    let mut m: Vec<char> = to_chars("example.com resolves to ");
                    push_all(&mut m, a);
                    NetAsk::Done(m, true)
                },
                Some(Err(e)) => {
                    let mut m: Vec<char> = to_chars("Looking up example.com failed: ");
                    push_all(&mut m, e);
                    NetAsk::Done(m, false)
                },
            },
        }
    }

    /// A ping is over: how long the reply took, or why there was none.
    pub fn ping_told(&mut self, r: Result<u64, Vec<char>>)
        requires
            old(self)@.wf(),
            old(self)@.asks() is Ping,
            r matches Ok(us) ==> sum(old(self)@.replies) + us <= u64::MAX,
        ensures
            final(self)@.wf(),
            final(self)@ == old(self)@.pinged(
                match r {
                    Ok(us) => Ok(us),
                    Err(e) => Err(e@),
                },
            ),
    {
        self.sent += 1;
        match r {
            Ok(us) => {
                self.replies.push(us);
                proof {
                    assert(self.replies@.drop_last() =~= old(self)@.replies);
                }
            },
            Err(e) => self.error = e,
        }
    }

    /// The lookup is over.
    pub fn name_told(&mut self, r: Result<Vec<char>, Vec<char>>)
        requires
            old(self)@.asks() is Resolve,
        ensures
            final(self)@ == (NetTestState {
                answer: Some(
                    match r {
                        Ok(a) => Ok(a@),
                        Err(e) => Err(e@),
                    },
                ),
                ..old(self)@
            }),
    {
        self.answer = Some(r);
    }
}

/// The test after some pings.
pub open spec fn after_pings(s: NetTestState, rs: Seq<Result<u64, Seq<char>>>) -> NetTestState
    decreases rs.len(),
{
    if rs.len() == 0 { s } else { after_pings(s, rs.drop_last()).pinged(rs.last()) }
}

/// The replies among some pings.
pub open spec fn times(rs: Seq<Result<u64, Seq<char>>>) -> Seq<u64>
    decreases rs.len(),
{
    if rs.len() == 0 {
        Seq::empty()
    } else {
        match rs.last() {
            Ok(us) => times(rs.drop_last()).push(us),
            Err(_) => times(rs.drop_last()),
        }
    }
}

proof fn lemma_after_pings(s: NetTestState, rs: Seq<Result<u64, Seq<char>>>)
    requires
        s.sent == 0,
        s.replies.len() == 0,
    ensures
        after_pings(s, rs).sent == rs.len(),
        after_pings(s, rs).replies == times(rs),
        after_pings(s, rs).target == s.target,
    decreases rs.len(),
{
    if rs.len() > 0 {
        lemma_after_pings(s, rs.drop_last());
    } else {
        assert(s.replies =~= times(rs));
    }
}

/// A test of an address sends three pings, whatever becomes of them; then it
/// is done, and all is well where there was a reply to any of them.
pub proof fn lemma_three_pings(kind: u8, gateway: Option<Seq<char>>, rs: Seq<Result<u64, Seq<char>>>)
    requires
        kind <= 1,
        rs.len() <= 3,
    ensures
        ({
            let s = after_pings(NetTestState::start(kind, gateway), rs);
            &&& s.asks() is Ping <==> rs.len() < 3
            &&& s.asks() matches NetAskState::Done(_, ok) ==> ok == (times(rs).len() > 0)
        }),
{
    lemma_after_pings(NetTestState::start(kind, gateway), rs);
}

} // verus!
