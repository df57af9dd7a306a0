//! What the Network page says of the connection.

use super::pages::Dhcp;
use crate::text::{copy, dec, push_all, push_dec, push_str, to_chars, views};
use vstd::prelude::*;

verus! {

/// The adapter and its connection, with addresses as they are written.
pub struct Link {
    pub adapter: Vec<char>,
    pub speed_mbps: u32,
    /// The address and the length of its prefix.
    pub ip: Option<(Vec<char>, u32)>,
    pub gateway: Option<Vec<char>>,
    pub dns: Vec<Vec<char>>,
    pub mac: Vec<char>,
    pub dhcp: Dhcp,
    pub tx_packets: u64,
    pub rx_packets: u64,
}

/// Texts with commas between them.
pub open spec fn listed(v: Seq<Seq<char>>) -> Seq<char>
    decreases v.len(),
{
    if v.len() == 0 {
        Seq::empty()
    } else if v.len() == 1 {
        v[0]
    } else {
        listed(v.drop_last()) + ", "@ + v.last()
    }
}

pub open spec fn configuration(d: Dhcp) -> Seq<char> {
    match d {
        Dhcp::Disabled => "Manual"@,
        Dhcp::Bound => "Automatic (DHCP lease)"@,
        _ => "Automatic (DHCP)"@,
    }
}

impl Link {
    pub open spec fn headline(self) -> Seq<char> {
        self.adapter@ + " \u{00b7} "@ + dec(self.speed_mbps as nat) + " Mb/s"@
    }

    /// The detail with this number.
    pub open spec fn detail(self, i: int) -> Seq<char> {
        if i == 0 {
            match self.ip {
                Some((ip, prefix)) => ip@ + "/"@ + dec(prefix as nat),
                None => "\u{2014}"@,
            }
        } else if i == 1 {
            match self.gateway {
                Some(g) => g@,
                None => "\u{2014}"@,
            }
        } else if i == 2 {
            if self.dns@.len() == 0 { "\u{2014}"@ } else { listed(views(self.dns@)) }
        } else if i == 3 {
            self.mac@
        } else if i == 4 {
            configuration(self.dhcp)
        } else {
            dec(self.tx_packets as nat) + " packets sent, "@ + dec(self.rx_packets as nat) + " received"@
        }
    }

    pub fn adapter_line(&self) -> (r: Vec<char>)
        ensures
            r@ == self.headline(),
    {
        let mut out: Vec<char> = copy(&self.adapter);
        push_str(&mut out, " \u{00b7} ");
        push_dec(&mut out, self.speed_mbps as u64);
        push_str(&mut out, " Mb/s");
        out
    }

    fn servers(&self) -> (r: Vec<char>)
        requires
            self.dns@.len() > 0,
        ensures
            r@ == listed(views(self.dns@)),
    {
        let ghost all = views(self.dns@);
        let mut out: Vec<char> = copy(&self.dns[0]);
        let mut i: usize = 1;
        assert(all.take(1)[0] == out@);
        while i < self.dns.len()
            invariant
                1 <= i <= self.dns@.len(),
                all == views(self.dns@),
                out@ == listed(all.take(i as int)),
            decreases self.dns@.len() - i,
        {
            push_str(&mut out, ", ");
            push_all(&mut out, &self.dns[i]);
            proof {
                let t = all.take(i + 1);
                assert(t.drop_last() =~= all.take(i as int));
                assert(t.last() == self.dns@[i as int]@);
            }
            i = i + 1;
        }
        assert(all.take(i as int) =~= all);
        out
    }

    /// The detail with this number.
    pub fn detail_text(&self, i: usize) -> (r: Vec<char>)
        ensures
            r@ == self.detail(i as int),
    {
        match i {
            0 => match &self.ip {
                Some((ip, prefix)) => {
                    let mut out: Vec<char> = copy(ip);
                    push_str(&mut out, "/");
                    push_dec(&mut out, *prefix as u64);
                    out
                },
                None => to_chars("\u{2014}"),
            },
            1 => match &self.gateway {
                Some(g) => copy(g),
                None => to_chars("\u{2014}"),
            },
            2 => if self.dns.len() == 0 {
                to_chars("\u{2014}")
            } else {
                self.servers()
            },
            3 => copy(&self.mac),
            4 => match self.dhcp {
                Dhcp::Disabled => to_chars("Manual"),
                Dhcp::Bound => to_chars("Automatic (DHCP lease)"),
                _ => to_chars("Automatic (DHCP)"),
            },
            _ => {
                let mut out: Vec<char> = Vec::new();
                push_dec(&mut out, self.tx_packets);
                push_str(&mut out, " packets sent, ");
                push_dec(&mut out, self.rx_packets);
                push_str(&mut out, " received");
                assert(out@ =~= self.detail(i as int));
                out
            },
        }
    }
}

} // verus!
