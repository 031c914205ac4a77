//! Which local address to advertise to client tools: interfaces that are
//! virtual are skipped, and loopback, unspecified and link-local addresses
//! are not usable.
use vstd::prelude::*;
use crate::text::{eq_ignore_ascii_case, eq_ignore_case_spec};

verus! {

/// A local IP address: four octets, or eight 16-bit segments.
#[derive(Debug, Clone, Copy, PartialEq, Eq)]
pub enum LocalIp {
    V4([u8; 4]),
    V6([u16; 8]),
}

/// `n` starts with `lit`, ignoring ASCII case.
pub open spec fn starts_with_ci(n: Seq<char>, lit: Seq<char>) -> bool {
    n.len() >= lit.len() && eq_ignore_case_spec(n.subrange(0, lit.len() as int), lit)
}

/// Interfaces of loopback devices, containers, bridges, hypervisors, VPNs
/// and tunnels.
pub open spec fn virtual_iface(n: Seq<char>) -> bool {
    eq_ignore_case_spec(n, "lo"@) || eq_ignore_case_spec(n, "localhost"@) || eq_ignore_case_spec(n, "loopback"@)
        || starts_with_ci(n, "docker"@) || starts_with_ci(n, "br-"@) || starts_with_ci(n, "veth"@)
        || starts_with_ci(n, "virbr"@) || starts_with_ci(n, "vmnet"@) || starts_with_ci(n, "tailscale"@)
        || starts_with_ci(n, "wg"@) || starts_with_ci(n, "tun"@) || starts_with_ci(n, "tap"@)
        || starts_with_ci(n, "zt"@)
}

/// An IPv6 address in `fe80::/10`.
pub open spec fn link_local_v6(seg: [u16; 8]) -> bool {
    seg[0] & 0xffc0u16 == 0xfe80u16
}

/// An address that other hosts can reach: IPv4 but loopback (`127/8`) and
/// link-local (`169.254/16`); IPv6 but loopback, unspecified and link-local.
pub open spec fn usable(ip: LocalIp) -> bool {
    match ip {
        LocalIp::V4(o) => o[0] != 127 && !(o[0] == 169 && o[1] == 254),
        LocalIp::V6(seg) => {
            let loopback = seg[0] == 0 && seg[1] == 0 && seg[2] == 0 && seg[3] == 0 && seg[4] == 0 && seg[5] == 0
                && seg[6] == 0 && seg[7] == 1;
            let unspecified = seg[0] == 0 && seg[1] == 0 && seg[2] == 0 && seg[3] == 0 && seg[4] == 0 && seg[5] == 0
                && seg[6] == 0 && seg[7] == 0;
            !loopback && !unspecified && !link_local_v6(seg)
        },
    }
}

/// An interface address worth advertising, of the wanted family.
pub open spec fn wanted(h: (Seq<char>, LocalIp), want_v4: bool) -> bool {
    !virtual_iface(h.0) && usable(h.1) && (h.1 is V4) == want_v4
}

/// The first wanted address of `s`, in order.
pub open spec fn first_wanted(s: Seq<(Seq<char>, LocalIp)>, want_v4: bool) -> Option<LocalIp>
    decreases s.len(),
{
    if s.len() == 0 {
        None
    } else if wanted(s[0], want_v4) {
        Some(s[0].1)
    } else {
        first_wanted(s.drop_first(), want_v4)
    }
}

/// The address to advertise: the first usable IPv4 address of a physical
/// interface, else the first usable IPv6 one, else the fallback if usable.
pub open spec fn pick_spec(s: Seq<(Seq<char>, LocalIp)>, fallback: Option<LocalIp>) -> Option<LocalIp> {
    match first_wanted(s, true) {
        Some(ip) => Some(ip),
        None => match first_wanted(s, false) {
            Some(ip) => Some(ip),
            None => match fallback {
                Some(ip) => if usable(ip) { Some(ip) } else { None },
                None => None,
            },
        },
    }
}

/// The interface list's mathematical value.
pub open spec fn iface_views(s: Seq<(String, LocalIp)>) -> Seq<(Seq<char>, LocalIp)> {
    s.map_values(|h: (String, LocalIp)| (h.0@, h.1))
}

fn starts_with_ignoring_case(n: &str, lit: &str) -> (r: bool)
    ensures
        r == starts_with_ci(n@, lit@),
{
    let m = lit.unicode_len();
    n.unicode_len() >= m && eq_ignore_ascii_case(n.substring_char(0, m), lit)
}

/// Whether an interface is virtual; see `virtual_iface`.
pub fn is_virtual_iface(iface: &str) -> (r: bool)
    ensures
        r == virtual_iface(iface@),
{
    eq_ignore_ascii_case(iface, "lo") || eq_ignore_ascii_case(iface, "localhost") || eq_ignore_ascii_case(iface, "loopback")
        || starts_with_ignoring_case(iface, "docker") || starts_with_ignoring_case(iface, "br-")
        || starts_with_ignoring_case(iface, "veth") || starts_with_ignoring_case(iface, "virbr")
        || starts_with_ignoring_case(iface, "vmnet") || starts_with_ignoring_case(iface, "tailscale")
        || starts_with_ignoring_case(iface, "wg") || starts_with_ignoring_case(iface, "tun")
        || starts_with_ignoring_case(iface, "tap") || starts_with_ignoring_case(iface, "zt")
}

/// Whether an IPv6 address is in `fe80::/10`.
pub fn is_ipv6_unicast_link_local(segments: &[u16; 8]) -> (r: bool)
    ensures
        r == link_local_v6(*segments),
{
    (segments[0] & 0xffc0) == 0xfe80
}

/// Whether other hosts can reach an address; see `usable`.
pub fn is_usable_ip(ip: &LocalIp) -> (r: bool)
    ensures
        r == usable(*ip),
{
    match ip {
        LocalIp::V4(o) => {
            if o[0] == 127 {
                return false;
            }
            !(o[0] == 169 && o[1] == 254)
        },
        LocalIp::V6(seg) => {
            let head_zero = seg[0] == 0 && seg[1] == 0 && seg[2] == 0 && seg[3] == 0 && seg[4] == 0 && seg[5] == 0
                && seg[6] == 0;
            if head_zero && (seg[7] == 1 || seg[7] == 0) {
                return false;
            }
            !is_ipv6_unicast_link_local(seg)
        },
    }
}

fn first_wanted_ip(netifs: &Vec<(String, LocalIp)>, want_v4: bool) -> (r: Option<LocalIp>)
    ensures
        r == first_wanted(iface_views(netifs@), want_v4),
{
    let ghost s = iface_views(netifs@);
    let mut i: usize = 0;
    assert(s.subrange(0, s.len() as int) =~= s);
    while i < netifs.len()
        invariant
            i <= netifs@.len(),
            s == iface_views(netifs@),
            first_wanted(s, want_v4) == first_wanted(s.subrange(i as int, s.len() as int), want_v4),
        decreases netifs@.len() - i,
    {
        let ghost rest = s.subrange(i as int, s.len() as int);
        assert(rest[0] == s[i as int]);
        let ip = netifs[i].1;
        let is_v4 = match ip {
            LocalIp::V4(_) => true,
            LocalIp::V6(_) => false,
        };
        if !is_virtual_iface(netifs[i].0.as_str()) && is_usable_ip(&ip) && is_v4 == want_v4 {
            return Some(ip);
        }
        assert(rest.drop_first() =~= s.subrange(i + 1, s.len() as int));
        i += 1;
    }
    None
}

/// The address to advertise from the interface list and the system's
/// preferred local address; see `pick_spec`.
pub fn pick_local_ip(netifs: &Vec<(String, LocalIp)>, fallback: Option<LocalIp>) -> (r: Option<LocalIp>)
    ensures
        r == pick_spec(iface_views(netifs@), fallback),
{
    if let Some(ip) = first_wanted_ip(netifs, true) {
        return Some(ip);
    }
    if let Some(ip) = first_wanted_ip(netifs, false) {
        return Some(ip);
    }
    match fallback {
        Some(ip) => if is_usable_ip(&ip) {
            Some(ip)
        } else {
            None
        },
        None => None,
    }
}

/// The base URL under which client tools reach the proxy at `addr`.
pub fn proxy_base_url(addr: &str) -> (r: String)
    ensures
        r@ == "http://"@ + addr@,
{
    let mut r = String::from_str("http://");
    r.append(addr);
    r
}

} // verus!
