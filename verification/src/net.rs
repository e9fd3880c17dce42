//! The server's view of the network: which port it listens on, which of the
//! host's addresses it announces, and what its self-signed certificate covers.
use crate::decimal::{decimal_text, parse_u16, parse_u16_text, push_decimal};
use crate::protocol::DEFAULT_PORT;
use vstd::prelude::*;
use vstd::string::StringExecFns;

verus! {

/// An IP address: IPv4 as its four octets, IPv6 as its eight 16-bit groups.
#[derive(Debug, Clone, Copy, PartialEq, Eq)]
pub enum IpAddress {
    V4(u8, u8, u8, u8),
    V6([u16; 8]),
}

/// An IPv4 loopback address (127.0.0.0/8).
pub open spec fn is_v4_loopback(ip: IpAddress) -> bool {
    ip matches IpAddress::V4(a, _, _, _) && a == 127
}

/// An IPv4 link-local address (169.254.0.0/16).
pub open spec fn is_v4_link_local(ip: IpAddress) -> bool {
    ip matches IpAddress::V4(a, b, _, _) && a == 169 && b == 254
}

/// An address worth telling people to connect to: IPv4, neither loopback nor link-local.
pub open spec fn announceable(ip: IpAddress) -> bool {
    ip is V4 && !is_v4_loopback(ip) && !is_v4_link_local(ip)
}

/// The addresses of `ips` that `keep` accepts, in their order.
pub open spec fn keep_where(ips: Seq<IpAddress>, keep: spec_fn(IpAddress) -> bool) -> Seq<IpAddress>
    decreases ips.len(),
{
    if ips.len() == 0 {
        Seq::empty()
    } else {
        let rest = keep_where(ips.drop_last(), keep);
        if keep(ips.last()) {
            rest.push(ips.last())
        } else {
            rest
        }
    }
}

/// The port named by the `LESSON_PORT` setting, or the default when it is unset or not a port number.
pub open spec fn port_setting(value: Option<Seq<char>>) -> u16 {
    match value {
        Some(v) => match parse_u16_text(v) {
            Some(p) => p,
            None => DEFAULT_PORT,
        },
        None => DEFAULT_PORT,
    }
}

/// Picks the listening port from the `LESSON_PORT` setting.
pub fn listen_port(value: Option<&str>) -> (port: u16)
    ensures
        port == port_setting(
            match value {
                Some(v) => Some(v@),
                None => None,
            },
        ),
{
    match value {
        Some(v) => match parse_u16(v) {
            Some(p) => p,
            None => DEFAULT_PORT,
        },
        None => DEFAULT_PORT,
    }
}

fn is_announceable(ip: IpAddress) -> (b: bool)
    ensures
        b == announceable(ip),
{
    match ip {
        IpAddress::V4(a, b, _, _) => a != 127 && !(a == 169 && b == 254),
        IpAddress::V6(_) => false,
    }
}

fn is_v4_loopback_address(ip: IpAddress) -> (b: bool)
    ensures
        b == is_v4_loopback(ip),
{
    match ip {
        IpAddress::V4(a, _, _, _) => a == 127,
        IpAddress::V6(_) => false,
    }
}

/// The host addresses to announce at start-up: the IPv4 ones that are neither
/// loopback nor link-local, in the order the host lists them.
pub fn advertised_addresses(ips: &Vec<IpAddress>) -> (shown: Vec<IpAddress>)
    ensures
        shown@ == keep_where(ips@, |ip: IpAddress| announceable(ip)),
{
    let mut shown: Vec<IpAddress> = Vec::new();
    let mut i: usize = 0;
    while i < ips.len()
        invariant
            i <= ips@.len(),
            shown@ == keep_where(ips@.subrange(0, i as int), |ip: IpAddress| announceable(ip)),
        decreases ips@.len() - i,
    {
        let ip = ips[i];
        proof {
            assert(ips@.subrange(0, i + 1).drop_last() =~= ips@.subrange(0, i as int));
        }
        if is_announceable(ip) {
            shown.push(ip);
        }
        i = i + 1;
    }
    assert(ips@.subrange(0, i as int) =~= ips@);
    shown
}

/// The character of a hexadecimal digit value below sixteen, in lower case.
pub open spec fn hex_char(d: int) -> char {
    if d < 10 {
        ('0' as int + d) as char
    } else {
        ('a' as int + d - 10) as char
    }
}

/// The lower-case hexadecimal text of `n`, without leading zeros.
pub open spec fn hex_text(n: nat) -> Seq<char>
    decreases n,
{
    if n < 16 {
        seq![hex_char(n as int)]
    } else {
        hex_text(n / 16).push(hex_char((n % 16) as int))
    }
}

/// The text of an IPv6 address: its eight groups in hexadecimal, separated by colons.
pub open spec fn groups_text(g: Seq<u16>) -> Seq<char>
    decreases g.len(),
{
    if g.len() == 0 {
        Seq::empty()
    } else if g.len() == 1 {
        hex_text(g[0] as nat)
    } else {
        groups_text(g.drop_last()) + ":"@ + hex_text(g.last() as nat)
    }
}

/// The text of an address: dotted decimal for IPv4, colon-separated hexadecimal groups for IPv6.
pub open spec fn ip_text(ip: IpAddress) -> Seq<char> {
    match ip {
        IpAddress::V4(a, b, c, d) => decimal_text(a as nat) + "."@ + decimal_text(b as nat) + "."@
            + decimal_text(c as nat) + "."@ + decimal_text(d as nat),
        IpAddress::V6(g) => groups_text(g@),
    }
}

fn hex_digit(d: u16) -> (t: &'static str)
    requires
        d < 16,
    ensures
        t@ == seq![hex_char(d as int)],
{
    proof {
        reveal_strlit("0");
        reveal_strlit("1");
        reveal_strlit("2");
        reveal_strlit("3");
        reveal_strlit("4");
        reveal_strlit("5");
        reveal_strlit("6");
        reveal_strlit("7");
        reveal_strlit("8");
        reveal_strlit("9");
        reveal_strlit("a");
        reveal_strlit("b");
        reveal_strlit("c");
        reveal_strlit("d");
        reveal_strlit("e");
        reveal_strlit("f");
    }
    let t = match d {
        0 => "0",
        1 => "1",
        2 => "2",
        3 => "3",
        4 => "4",
        5 => "5",
        6 => "6",
        7 => "7",
        8 => "8",
        9 => "9",
        10 => "a",
        11 => "b",
        12 => "c",
        13 => "d",
        14 => "e",
        _ => "f",
    };
    assert(t@ =~= seq![hex_char(d as int)]);
    t
}

fn push_hex(out: &mut String, n: u16)
    ensures
        final(out)@ == old(out)@ + hex_text(n as nat),
    decreases n,
{
    if n >= 16 {
        push_hex(out, n / 16);
    }
    out.append(hex_digit(n % 16));
    proof {
        if n >= 16 {
            assert(old(out)@ + hex_text(n as nat) =~= old(out)@ + hex_text((n / 16) as nat)
                + seq![hex_char((n % 16) as int)]);
        } else {
            assert(old(out)@ + hex_text(n as nat) =~= old(out)@ + seq![hex_char((n % 16) as int)]);
        }
    }
}

/// Writes an address as text that `IpAddr`'s parser reads back.
pub fn ip_to_text(ip: IpAddress) -> (text: String)
    ensures
        text@ == ip_text(ip),
{
    let mut text = String::new();
    match ip {
        IpAddress::V4(a, b, c, d) => {
            push_decimal(&mut text, a as u16);
            text.append(".");
            push_decimal(&mut text, b as u16);
            text.append(".");
            push_decimal(&mut text, c as u16);
            text.append(".");
            push_decimal(&mut text, d as u16);
            assert(text@ =~= ip_text(ip));
        },
        IpAddress::V6(g) => {
            let mut i: usize = 0;
            while i < 8
                invariant
                    i <= 8,
                    g@.len() == 8,
                    text@ == groups_text(g@.subrange(0, i as int)),
                decreases 8 - i,
            {
                let ghost before = text@;
                if i > 0 {
                    text.append(":");
                }
                push_hex(&mut text, g[i]);
                proof {
                    let s = g@.subrange(0, i + 1);
                    assert(s.drop_last() =~= g@.subrange(0, i as int));
                    if i == 0 {
                        assert(before =~= Seq::<char>::empty());
                        assert(text@ =~= hex_text(s[0] as nat));
                    }
                }
                i = i + 1;
            }
            assert(g@.subrange(0, 8) =~= g@);
        },
    }
    text
}

/// The DNS names the certificate is issued for.
pub open spec fn certificate_dns_names() -> Seq<Seq<char>> {
    seq!["localhost"@, "lesson-studio"@]
}

/// The IP addresses the certificate covers: 127.0.0.1 and 0.0.0.0, then every
/// extra address except IPv4 loopback ones.
pub open spec fn certificate_ips(extra: Seq<IpAddress>) -> Seq<IpAddress> {
    seq![IpAddress::V4(127, 0, 0, 1), IpAddress::V4(0, 0, 0, 0)] + keep_where(
        extra,
        |ip: IpAddress| !is_v4_loopback(ip),
    )
}

/// What the server's self-signed certificate is made for.
pub struct CertificatePlan {
    pub dns_names: Vec<String>,
    pub ips: Vec<IpAddress>,
}

/// Decides the names and addresses of the server's self-signed certificate,
/// given the host addresses it will announce.
pub fn certificate_plan(extra: &Vec<IpAddress>) -> (plan: CertificatePlan)
    ensures
        plan.dns_names@.map_values(|n: String| n@) == certificate_dns_names(),
        plan.ips@ == certificate_ips(extra@),
{
    let mut dns_names: Vec<String> = Vec::new();
    dns_names.push(String::from_str("localhost"));
    dns_names.push(String::from_str("lesson-studio"));
    let mut ips: Vec<IpAddress> = Vec::new();
    ips.push(IpAddress::V4(127, 0, 0, 1));
    ips.push(IpAddress::V4(0, 0, 0, 0));
    let ghost base = ips@;
    let mut i: usize = 0;
    while i < extra.len()
        invariant
            i <= extra@.len(),
            base == seq![IpAddress::V4(127, 0, 0, 1), IpAddress::V4(0, 0, 0, 0)],
            ips@ == base + keep_where(
                extra@.subrange(0, i as int),
                |ip: IpAddress| !is_v4_loopback(ip),
            ),
        decreases extra@.len() - i,
    {
        let ip = extra[i];
        proof {
            assert(extra@.subrange(0, i + 1).drop_last() =~= extra@.subrange(0, i as int));
        }
        if !is_v4_loopback_address(ip) {
            ips.push(ip);
        }
        i = i + 1;
    }
    assert(extra@.subrange(0, i as int) =~= extra@);
    assert(dns_names@.map_values(|n: String| n@) =~= certificate_dns_names());
    CertificatePlan { dns_names, ips }
}


proof fn lemma_keep_where(ips: Seq<IpAddress>, keep: spec_fn(IpAddress) -> bool, ip: IpAddress)
    ensures
        keep_where(ips, keep).contains(ip) <==> (ips.contains(ip) && keep(ip)),
    decreases ips.len(),
{
    if ips.len() > 0 {
        let init = ips.drop_last();
        lemma_keep_where(init, keep, ip);
        let rest = keep_where(init, keep);
        if ips.contains(ip) && ip != ips.last() {
            let k = choose|k: int| 0 <= k < ips.len() && ips[k] == ip;
            assert(init[k] == ip);
        }
        if init.contains(ip) {
            let k = choose|k: int| 0 <= k < init.len() && init[k] == ip;
            assert(ips[k] == ip);
        }
        assert(ips[ips.len() - 1] == ips.last());
        if keep(ips.last()) {
            let r = rest.push(ips.last());
            if rest.contains(ip) {
                let k = choose|k: int| 0 <= k < rest.len() && rest[k] == ip;
                assert(r[k] == ip);
            }
            if r.contains(ip) && ip != ips.last() {
                let k = choose|k: int| 0 <= k < r.len() && r[k] == ip;
                assert(rest[k] == ip);
            }
            assert(r[rest.len() as int] == ips.last());
        }
    }
}

/// The server announces exactly the host's IPv4 addresses whose first octet is not
/// 127 and that lie outside 169.254.0.0/16: every such address of the host is in the
/// list (private LANs of every kind among them), and nothing else is.
pub proof fn reachable_ipv4_addresses_are_announced(host_ips: Seq<IpAddress>, ip: IpAddress)
    ensures
        keep_where(host_ips, |a: IpAddress| announceable(a)).contains(ip) <==> (host_ips.contains(
            ip,
        ) && (ip matches IpAddress::V4(a, b, _, _) && a != 127 && !(a == 169 && b == 254))),
{
    lemma_keep_where(host_ips, |a: IpAddress| announceable(a), ip);
}

/// Every address the server announces is covered by its certificate, so a client
/// dialling an announced address gets a certificate issued for it.
pub proof fn announced_addresses_are_certified(host_ips: Seq<IpAddress>, ip: IpAddress)
    requires
        keep_where(host_ips, |a: IpAddress| announceable(a)).contains(ip),
    ensures
        certificate_ips(keep_where(host_ips, |a: IpAddress| announceable(a))).contains(ip),
{
    let announced = keep_where(host_ips, |a: IpAddress| announceable(a));
    lemma_keep_where(host_ips, |a: IpAddress| announceable(a), ip);
    lemma_keep_where(announced, |a: IpAddress| !is_v4_loopback(a), ip);
    let base = seq![IpAddress::V4(127, 0, 0, 1), IpAddress::V4(0, 0, 0, 0)];
    let kept = keep_where(announced, |a: IpAddress| !is_v4_loopback(a));
    let k = choose|k: int| 0 <= k < kept.len() && kept[k] == ip;
    assert((base + kept)[base.len() + k] == ip);
}

} // verus!
