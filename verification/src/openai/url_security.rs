//! Classification of IP addresses for outbound HTTP clients.

use vstd::prelude::*;

verus! {

/// An IPv4 address, by its octets.
#[derive(Clone, Copy, Debug, PartialEq, Eq)]
pub struct Ipv4Addr {
    /// The octets, from left to right.
    pub octets: [u8; 4],
}

/// An IPv6 address, by its segments.
#[derive(Clone, Copy, Debug, PartialEq, Eq)]
pub struct Ipv6Addr {
    /// The segments, from left to right.
    pub segments: [u16; 8],
}

/// An IP address.
#[derive(Clone, Copy, Debug, PartialEq, Eq)]
pub enum IpAddr {
    /// An IPv4 address.
    V4(Ipv4Addr),
    /// An IPv6 address.
    V6(Ipv6Addr),
}

impl Ipv4Addr {
    /// The address of four octets.
    pub fn new(a: u8, b: u8, c: u8, d: u8) -> (ip: Self)
        ensures
            ip.octets@ == seq![a, b, c, d],
            v4_number(ip) == v4_at(a as int, b as int, c as int, d as int),
    {
        let ip = Ipv4Addr { octets: [a, b, c, d] };
        assert(ip.octets@ =~= seq![a, b, c, d]);
        ip
    }

    /// The address as a number.
    pub fn number(&self) -> (n: u32)
        ensures
            n == v4_number(*self),
    {
        (self.octets[0] as u32) * 16777216 + (self.octets[1] as u32) * 65536 + (
        self.octets[2] as u32) * 256 + (self.octets[3] as u32)
    }
}

impl Ipv6Addr {
    /// The address of eight segments.
    pub fn new(segments: [u16; 8]) -> (ip: Self)
        ensures
            ip.segments == segments,
    {
        Ipv6Addr { segments }
    }
}

/// The number of an IPv4 address.
pub open spec fn v4_number(ip: Ipv4Addr) -> int {
    v4_at(
        ip.octets@[0] as int,
        ip.octets@[1] as int,
        ip.octets@[2] as int,
        ip.octets@[3] as int,
    )
}

/// The number of the IPv4 address `a.b.c.d`.
pub open spec fn v4_at(a: int, b: int, c: int, d: int) -> int {
    a * 16777216 + b * 65536 + c * 256 + d
}

/// Whether an IPv4 address lies in a block: from `a.b.c.d` on, so many addresses.
pub open spec fn in_block(ip: Ipv4Addr, start: int, size: int) -> bool {
    start <= v4_number(ip) < start + size
}

/// Whether an address is in the block from `start` on.
fn within(n: u32, start: u32, size: u32) -> (inside: bool)
    ensures
        inside == (start <= n < start + size),
{
    n >= start && n - start < size
}

/// The segments of an IPv6 address.
pub open spec fn segments(ip: Ipv6Addr) -> Seq<u16> {
    ip.segments@
}

/// Whether the segments from `from` on are all zero.
pub open spec fn zero_from(s: Seq<u16>, from: int) -> bool {
    forall|i: int| from <= i < s.len() ==> #[trigger] s[i] == 0
}

/// The known IPv4 addresses of cloud metadata and credential services.
pub open spec fn is_metadata_v4(ip: Ipv4Addr) -> bool {
    let n = v4_number(ip);
    ||| n == v4_at(169, 254, 169, 254)
    ||| n == v4_at(169, 254, 170, 2)
    ||| n == v4_at(169, 254, 170, 23)
    ||| n == v4_at(169, 254, 0, 23)
    ||| n == v4_at(169, 254, 10, 10)
    ||| n == v4_at(100, 100, 100, 200)
}

/// The known IPv6 addresses of cloud metadata and credential services.
pub open spec fn is_metadata_v6(ip: Ipv6Addr) -> bool {
    let s = segments(ip);
    s[0] == 0xFD00 && s[1] == 0x0EC2 && s[2] == 0 && s[3] == 0 && s[4] == 0 && s[5] == 0 && s[6]
        == 0 && (s[7] == 0x0254 || s[7] == 0x0023)
}

/// Whether an address is that of a cloud metadata or credential service.
pub open spec fn is_metadata(ip: IpAddr) -> bool {
    match ip {
        IpAddr::V4(v4) => is_metadata_v4(v4),
        IpAddr::V6(v6) => is_metadata_v6(v6),
    }
}

/// Returns whether an address targets a known cloud metadata or credential
/// endpoint.
pub fn is_cloud_metadata(ip: &IpAddr) -> (found: bool)
    ensures
        found == is_metadata(*ip),
{
    match ip {
        IpAddr::V4(v4) => {
            let n = v4.number();
            n == 0xA9FEA9FE || n == 0xA9FEAA02 || n == 0xA9FEAA17 || n == 0xA9FE0017 || n
                == 0xA9FE0A0A || n == 0x646464C8
        },
        IpAddr::V6(v6) => {
            let s = &v6.segments;
            s[0] == 0xFD00 && s[1] == 0x0EC2 && s[2] == 0 && s[3] == 0 && s[4] == 0 && s[5] == 0
                && s[6] == 0 && (s[7] == 0x0254 || s[7] == 0x0023)
        },
    }
}

/// Whether an address is the unspecified one.
pub open spec fn is_unspecified(ip: IpAddr) -> bool {
    match ip {
        IpAddr::V4(v4) => v4_number(v4) == 0,
        IpAddr::V6(v6) => zero_from(segments(v6), 0),
    }
}

/// Whether an address is a multicast one: `224.0.0.0/4` or `ff00::/8`.
pub open spec fn is_multicast(ip: IpAddr) -> bool {
    match ip {
        IpAddr::V4(v4) => in_block(v4, v4_at(224, 0, 0, 0), 0x10000000),
        IpAddr::V6(v6) => segments(v6)[0] >= 0xFF00,
    }
}

/// Whether an address is unsafe whatever is allowed.
pub open spec fn is_blocked(ip: IpAddr) -> bool {
    is_unspecified(ip) || is_multicast(ip) || is_metadata(ip)
}

/// Returns whether an address is unsafe even for explicitly allowlisted file URLs.
pub fn is_unconditionally_blocked(ip: &IpAddr) -> (blocked: bool)
    ensures
        blocked == is_blocked(*ip),
{
    let special = match ip {
        IpAddr::V4(v4) => {
            let n = v4.number();
            n == 0 || within(n, 0xE0000000, 0x10000000)
        },
        IpAddr::V6(v6) => {
            let s = &v6.segments;
            let zero = s[0] == 0 && s[1] == 0 && s[2] == 0 && s[3] == 0 && s[4] == 0 && s[5] == 0
                && s[6] == 0 && s[7] == 0;
            proof {
                if zero {
                    assert(zero_from(segments(*v6), 0));
                } else {
                    assert(segments(*v6)[0] != 0 || segments(*v6)[1] != 0 || segments(*v6)[2] != 0
                        || segments(*v6)[3] != 0 || segments(*v6)[4] != 0 || segments(*v6)[5] != 0
                        || segments(*v6)[6] != 0 || segments(*v6)[7] != 0);
                }
            }
            zero || s[0] >= 0xFF00
        },
    };
    special || is_cloud_metadata(ip)
}

/// Whether an IPv4 address is in the shared range of carriers, `100.64.0.0/10`.
pub open spec fn is_carrier_shared(ip: Ipv4Addr) -> bool {
    in_block(ip, v4_at(100, 64, 0, 0), 0x400000)
}

/// Whether an IPv4 address belongs to a special-use range that is not global:
/// `192.0.0.0/24` but for two of its addresses, `192.0.2.0/24`, `192.88.99.0/24`,
/// `198.18.0.0/15`, `198.51.100.0/24`, `203.0.113.0/24` and `240.0.0.0/4`.
pub open spec fn is_special_v4(ip: Ipv4Addr) -> bool {
    ||| in_block(ip, v4_at(192, 0, 0, 0), 256) && v4_number(ip) != v4_at(192, 0, 0, 9) && v4_number(
        ip,
    ) != v4_at(192, 0, 0, 10)
    ||| in_block(ip, v4_at(192, 0, 2, 0), 256)
    ||| in_block(ip, v4_at(192, 88, 99, 0), 256)
    ||| in_block(ip, v4_at(198, 18, 0, 0), 0x20000)
    ||| in_block(ip, v4_at(198, 51, 100, 0), 256)
    ||| in_block(ip, v4_at(203, 0, 113, 0), 256)
    ||| in_block(ip, v4_at(240, 0, 0, 0), 0x10000000)
}

/// Whether an IPv4 address is private or belongs to a special-use range: loopback,
/// the private ranges, link-local, `0.0.0.0/8`, and the special-use ranges.
pub open spec fn is_private_v4(ip: Ipv4Addr) -> bool {
    ||| in_block(ip, v4_at(127, 0, 0, 0), 0x1000000)
    ||| in_block(ip, v4_at(10, 0, 0, 0), 0x1000000)
    ||| in_block(ip, v4_at(172, 16, 0, 0), 0x100000)
    ||| in_block(ip, v4_at(192, 168, 0, 0), 0x10000)
    ||| in_block(ip, v4_at(169, 254, 0, 0), 0x10000)
    ||| in_block(ip, v4_at(0, 0, 0, 0), 0x1000000)
    ||| is_carrier_shared(ip)
    ||| is_special_v4(ip)
}

/// Returns whether an IPv4 address is in the shared range of carriers.
fn is_cgnat(ip: &Ipv4Addr) -> (shared: bool)
    ensures
        shared == is_carrier_shared(*ip),
{
    within(ip.number(), 0x64400000, 0x400000)
}

/// Returns whether an IPv4 address belongs to a special-use range that is not
/// global.
fn is_special_use_v4(ip: &Ipv4Addr) -> (special: bool)
    ensures
        special == is_special_v4(*ip),
{
    let n = ip.number();
    (within(n, 0xC0000000, 256) && n != 0xC0000009 && n != 0xC000000A) || within(
        n,
        0xC0000200,
        256,
    ) || within(n, 0xC0586300, 256) || within(n, 0xC6120000, 0x20000) || within(
        n,
        0xC6336400,
        256,
    ) || within(n, 0xCB007100, 256) || n >= 0xF0000000
}

/// Whether an IPv6 address is in a part of `2001::/23` that is not global: all of
/// it but `2001:1::1` to `2001:1::3`, `2001:3::/32`, `2001:4:112::/48`,
/// `2001:20::/28` and `2001:30::/28`.
pub open spec fn is_protocol_range(s: Seq<u16>) -> bool {
    s[0] == 0x2001 && s[1] <= 0x01FF && !(s[1] == 1 && s[2] == 0 && s[3] == 0 && s[4] == 0 && s[5]
        == 0 && s[6] == 0 && 1 <= s[7] <= 3) && s[1] != 3 && !(s[1] == 4 && s[2] == 0x0112) && !(
    0x0020 <= s[1] <= 0x003F)
}

/// Whether an IPv6 address belongs to a special-use range that is not global.
pub open spec fn is_special_v6(ip: Ipv6Addr) -> bool {
    let s = segments(ip);
    ||| s[0] == 0x0064 && s[1] == 0xFF9B && s[2] == 0x0001
    ||| s[0] == 0x0100 && s[1] == 0 && s[2] == 0 && s[3] <= 1
    ||| is_protocol_range(s)
    ||| s[0] == 0x2001 && s[1] == 0x0DB8
    ||| s[0] == 0x2002
    ||| s[0] == 0x3FFF && s[1] < 0x1000
    ||| s[0] == 0x5F00
}

/// Whether an IPv6 address is private or belongs to a special-use range: loopback,
/// unique local (`fc00::/7`), link-local (`fe80::/10`), site-local (`fec0::/10`),
/// and the special-use ranges.
pub open spec fn is_private_v6(ip: Ipv6Addr) -> bool {
    let s = segments(ip);
    ||| s[0] == 0 && s[1] == 0 && s[2] == 0 && s[3] == 0 && s[4] == 0 && s[5] == 0 && s[6] == 0
        && s[7] == 1
    ||| 0xFC00 <= s[0] <= 0xFDFF
    ||| 0xFE80 <= s[0] <= 0xFEBF
    ||| 0xFEC0 <= s[0] <= 0xFEFF
    ||| is_special_v6(ip)
}

/// Whether an address is private or belongs to a special-use range.
pub open spec fn is_private(ip: IpAddr) -> bool {
    match ip {
        IpAddr::V4(v4) => is_private_v4(v4),
        IpAddr::V6(v6) => is_private_v6(v6),
    }
}

/// Returns whether an IPv6 address is in a part of `2001::/23` that is not global.
fn is_2001_ietf_non_global(s: &[u16; 8]) -> (found: bool)
    ensures
        found == is_protocol_range(s@),
{
    if s[0] != 0x2001 || s[1] > 0x01FF {
        return false;
    }
    let traversal = s[1] == 1 && s[2] == 0 && s[3] == 0 && s[4] == 0 && s[5] == 0 && s[6] == 0
        && s[7] >= 1 && s[7] <= 3;
    !(traversal || s[1] == 3 || (s[1] == 4 && s[2] == 0x0112) || (s[1] >= 0x0020 && s[1]
        <= 0x003F))
}

/// Returns whether an IPv6 address belongs to a special-use range that is not
/// global.
fn is_special_use_v6(ip: &Ipv6Addr) -> (special: bool)
    ensures
        special == is_special_v6(*ip),
{
    let s = &ip.segments;
    (s[0] == 0x0064 && s[1] == 0xFF9B && s[2] == 0x0001) || (s[0] == 0x0100 && s[1] == 0 && s[2]
        == 0 && s[3] <= 1) || is_2001_ietf_non_global(s) || (s[0] == 0x2001 && s[1] == 0x0DB8)
        || s[0] == 0x2002 || (s[0] == 0x3FFF && s[1] < 0x1000) || s[0] == 0x5F00
}

/// Returns whether an address is private or belongs to a special-use range that
/// is not global.
pub fn is_private_or_special_use(ip: &IpAddr) -> (private: bool)
    ensures
        private == is_private(*ip),
{
    match ip {
        IpAddr::V4(v4) => {
            let n = v4.number();
            within(n, 0x7F000000, 0x1000000) || within(n, 0x0A000000, 0x1000000) || within(
                n,
                0xAC100000,
                0x100000,
            ) || within(n, 0xC0A80000, 0x10000) || within(n, 0xA9FE0000, 0x10000) || n < 0x1000000
                || is_cgnat(v4) || is_special_use_v4(v4)
        },
        IpAddr::V6(v6) => {
            let s = &v6.segments;
            let loopback = s[0] == 0 && s[1] == 0 && s[2] == 0 && s[3] == 0 && s[4] == 0 && s[5]
                == 0 && s[6] == 0 && s[7] == 1;
            loopback || (s[0] >= 0xFC00 && s[0] <= 0xFDFF) || (s[0] >= 0xFE80 && s[0] <= 0xFEFF)
                || is_special_use_v6(v6)
        },
    }
}

/// The IPv4 address in the last two segments of an IPv6 address.
pub open spec fn last_v4(ip: Ipv6Addr) -> Ipv4Addr {
    let s = segments(ip);
    Ipv4Addr {
        octets: [
            (s[6] / 256) as u8,
            (s[6] % 256) as u8,
            (s[7] / 256) as u8,
            (s[7] % 256) as u8,
        ],
    }
}

/// Reads the IPv4 address in the last two segments.
fn embedded_v4(ip: &Ipv6Addr) -> (v4: Ipv4Addr)
    ensures
        v4 == last_v4(*ip),
{
    let s = &ip.segments;
    Ipv4Addr {
        octets: [
            (s[6] / 256) as u8,
            (s[6] % 256) as u8,
            (s[7] / 256) as u8,
            (s[7] % 256) as u8,
        ],
    }
}

/// Whether an IPv6 address is a mapped IPv4 address, `::ffff:0:0/96`.
pub open spec fn is_mapped(ip: Ipv6Addr) -> bool {
    let s = segments(ip);
    s[0] == 0 && s[1] == 0 && s[2] == 0 && s[3] == 0 && s[4] == 0 && s[5] == 0xFFFF
}

/// An address, with a mapped IPv4 address as such.
pub open spec fn unmapped(ip: IpAddr) -> IpAddr {
    match ip {
        IpAddr::V6(v6) => if is_mapped(v6) {
            IpAddr::V4(last_v4(v6))
        } else {
            ip
        },
        IpAddr::V4(_) => ip,
    }
}

/// Takes a mapped IPv4 address for what it is.
pub fn normalize_mapped_ipv4(ip: IpAddr) -> (normal: IpAddr)
    ensures
        normal == unmapped(ip),
{
    match ip {
        IpAddr::V6(v6) => {
            let s = &v6.segments;
            if s[0] == 0 && s[1] == 0 && s[2] == 0 && s[3] == 0 && s[4] == 0 && s[5] == 0xFFFF {
                IpAddr::V4(embedded_v4(&v6))
            } else {
                ip
            }
        },
        IpAddr::V4(_) => ip,
    }
}

/// Whether an IPv6 address has the translation prefix `64:ff9b::/96`.
pub open spec fn is_translated(ip: Ipv6Addr) -> bool {
    let s = segments(ip);
    s[0] == 0x0064 && s[1] == 0xFF9B && s[2] == 0 && s[3] == 0 && s[4] == 0 && s[5] == 0
}

/// The IPv4 address that a translated IPv6 address stands for.
pub open spec fn translated_v4(ip: IpAddr) -> Option<Ipv4Addr> {
    match ip {
        IpAddr::V6(v6) => if is_translated(v6) {
            Some(last_v4(v6))
        } else {
            None
        },
        IpAddr::V4(_) => None,
    }
}

/// Extracts the IPv4 address that a translated IPv6 address stands for.
fn nat64_embedded_ipv4(ip: &IpAddr) -> (embedded: Option<Ipv4Addr>)
    ensures
        embedded == translated_v4(*ip),
{
    match ip {
        IpAddr::V6(v6) => {
            let s = &v6.segments;
            if s[0] == 0x0064 && s[1] == 0xFF9B && s[2] == 0 && s[3] == 0 && s[4] == 0 && s[5]
                == 0 {
                Some(embedded_v4(v6))
            } else {
                None
            }
        },
        IpAddr::V4(_) => None,
    }
}

/// Whether an address, or the IPv4 address that it stands for, has a property of
/// the shared policy.
pub open spec fn is_not_public(ip: IpAddr) -> bool {
    let plain = unmapped(ip);
    is_blocked(plain) || is_private(plain) || match translated_v4(plain) {
        Some(v4) => is_blocked(IpAddr::V4(v4)) || is_private(IpAddr::V4(v4)),
        None => false,
    }
}

/// Returns whether an address is not publicly routable under the shared policy.
pub fn is_non_public_ip(ip: &IpAddr) -> (found: bool)
    ensures
        found == is_not_public(*ip),
{
    let plain = normalize_mapped_ipv4(*ip);
    if is_unconditionally_blocked(&plain) || is_private_or_special_use(&plain) {
        return true;
    }
    match nat64_embedded_ipv4(&plain) {
        Some(v4) => {
            let embedded = IpAddr::V4(v4);
            is_unconditionally_blocked(&embedded) || is_private_or_special_use(&embedded)
        },
        None => false,
    }
}

/// Whether an address may not be fetched from for an untrusted file URL.
pub open spec fn is_fetch_blocked(ip: IpAddr, allow_private: bool) -> bool {
    let plain = unmapped(ip);
    is_blocked(plain) || (!allow_private && is_private(plain)) || match translated_v4(plain) {
        Some(v4) => is_blocked(IpAddr::V4(v4)) || (!allow_private && is_private(IpAddr::V4(v4))),
        None => false,
    }
}

/// Returns whether an address must be blocked for an untrusted file URL.
pub fn is_file_url_ssrf_blocked(ip: &IpAddr, allow_private: bool) -> (blocked: bool)
    ensures
        blocked == is_fetch_blocked(*ip, allow_private),
{
    let plain = normalize_mapped_ipv4(*ip);
    if is_unconditionally_blocked(&plain) {
        return true;
    }
    if let Some(v4) = nat64_embedded_ipv4(&plain) {
        let embedded = IpAddr::V4(v4);
        if is_unconditionally_blocked(&embedded) || (!allow_private && is_private_or_special_use(
            &embedded,
        )) {
            return true;
        }
    }
    !allow_private && is_private_or_special_use(&plain)
}

/// The two policies agree: without private addresses allowed, a file URL is
/// blocked exactly where its address is not public.
pub proof fn lemma_policies_agree(ip: IpAddr)
    ensures
        is_fetch_blocked(ip, false) == is_not_public(ip),
{
}

/// Allowing private addresses only ever lets more through, and never what is
/// unsafe whatever is allowed.
pub proof fn lemma_allowance_only_relaxes(ip: IpAddr)
    ensures
        is_fetch_blocked(ip, true) ==> is_fetch_blocked(ip, false),
        is_blocked(unmapped(ip)) ==> is_fetch_blocked(ip, true),
{
}

/// How an IPv4 address is written does not count: mapped into IPv6 or translated,
/// it is blocked wherever the plain address is.
pub proof fn lemma_disguise_does_not_help(v6: Ipv6Addr, allow_private: bool)
    requires
        is_mapped(v6) || is_translated(v6),
        is_fetch_blocked(IpAddr::V4(last_v4(v6)), allow_private),
    ensures
        is_fetch_blocked(IpAddr::V6(v6), allow_private),
        is_mapped(v6) ==> is_not_public(IpAddr::V6(v6)) == is_not_public(IpAddr::V4(last_v4(v6))),
{
}

/// Whether an IPv4 address, by its octets, is private, link-local, shared by carriers
/// or of special use.
pub open spec fn is_reserved_octets(a: u8, b: u8, c: u8, d: u8) -> bool {
    ||| a == 0 || a == 10 || a == 127
    ||| a == 100 && 64 <= b <= 127
    ||| a == 169 && b == 254
    ||| a == 172 && 16 <= b <= 31
    ||| a == 192 && b == 168
    ||| a == 192 && b == 0 && c == 0 && d != 9 && d != 10
    ||| a == 192 && b == 0 && c == 2
    ||| a == 192 && b == 88 && c == 99
    ||| a == 198 && (b == 18 || b == 19)
    ||| a == 198 && b == 51 && c == 100
    ||| a == 203 && b == 0 && c == 113
    ||| a >= 240
}

/// An IPv4 address is public exactly where its octets are neither reserved nor those
/// of a multicast group nor those of a cloud's metadata service.
pub proof fn lemma_public_octets(ip: Ipv4Addr)
    ensures
        ({
            let a = ip.octets@[0];
            let b = ip.octets@[1];
            let c = ip.octets@[2];
            let d = ip.octets@[3];
            let metadata = (a == 169 && b == 254 && ((c == 169 && d == 254) || (c == 170 && d == 2)
                || (c == 170 && d == 23) || (c == 0 && d == 23) || (c == 10 && d == 10))) || (a
                == 100 && b == 100 && c == 100 && d == 200);
            let nowhere = a == 0 && b == 0 && c == 0 && d == 0;
            &&& is_private(IpAddr::V4(ip)) == is_reserved_octets(a, b, c, d)
            &&& is_blocked(IpAddr::V4(ip)) == (metadata || nowhere || 224 <= a <= 239)
            &&& is_not_public(IpAddr::V4(ip)) == (is_reserved_octets(a, b, c, d) || metadata || 224
                <= a <= 239)
            &&& is_fetch_blocked(IpAddr::V4(ip), true) == (metadata || nowhere || 224 <= a <= 239)
        }),
{
}

/// Whether an IPv6 address, by its segments, is local or of special use.
pub open spec fn is_reserved_segments(s: Seq<u16>) -> bool {
    ||| s[0] == 0 && s[1] == 0 && s[2] == 0 && s[3] == 0 && s[4] == 0 && s[5] == 0 && s[6] == 0
        && s[7] == 1
    ||| 0xFC00 <= s[0] < 0xFE00
    ||| 0xFE80 <= s[0] < 0xFF00
    ||| s[0] == 0x64 && s[1] == 0xFF9B && s[2] == 1
    ||| s[0] == 0x100 && s[1] == 0 && s[2] == 0 && (s[3] == 0 || s[3] == 1)
    ||| s[0] == 0x2001 && s[1] == 0xDB8
    ||| s[0] == 0x2001 && s[1] < 0x200 && !is_global_exception(s)
    ||| s[0] == 0x2002
    ||| s[0] == 0x3FFF && s[1] < 0x1000
    ||| s[0] == 0x5F00
}

/// Whether an IPv6 address is a global one among those of protocol assignments.
pub open spec fn is_global_exception(s: Seq<u16>) -> bool {
    ||| s[1] == 1 && s[2] == 0 && s[3] == 0 && s[4] == 0 && s[5] == 0 && s[6] == 0 && (s[7] == 1
        || s[7] == 2 || s[7] == 3)
    ||| s[1] == 3
    ||| s[1] == 4 && s[2] == 0x112
    ||| 0x20 <= s[1] < 0x40
}

/// An IPv6 address that stands for no IPv4 address is public exactly where its
/// segments are neither reserved nor those of a multicast group, of no address at all
/// or of a cloud's metadata service; one that stands for an IPv4 address holds it in
/// its last two segments.
pub proof fn lemma_public_segments(ip: Ipv6Addr)
    ensures
        ({
            let s = ip.segments@;
            let metadata = s[0] == 0xFD00 && s[1] == 0xEC2 && s[2] == 0 && s[3] == 0 && s[4] == 0
                && s[5] == 0 && s[6] == 0 && (s[7] == 0x254 || s[7] == 0x23);
            let nowhere = s[0] == 0 && s[1] == 0 && s[2] == 0 && s[3] == 0 && s[4] == 0 && s[5] == 0
                && s[6] == 0 && s[7] == 0;
            let v4 = (s[0] == 0 && s[1] == 0 && s[2] == 0 && s[3] == 0 && s[4] == 0 && s[5]
                == 0xFFFF) || (s[0] == 0x64 && s[1] == 0xFF9B && s[2] == 0 && s[3] == 0 && s[4] == 0
                && s[5] == 0);
            &&& !v4 ==> is_not_public(IpAddr::V6(ip)) == (is_reserved_segments(s) || nowhere
                || metadata || s[0] >= 0xFF00)
            &&& !v4 ==> is_fetch_blocked(IpAddr::V6(ip), true) == (nowhere || metadata || s[0]
                >= 0xFF00)
            &&& v4_number(last_v4(ip)) == s[6] * 65536 + s[7]
            &&& v4 ==> is_not_public(IpAddr::V6(ip)) == is_not_public(IpAddr::V4(last_v4(ip)))
            &&& v4 ==> is_fetch_blocked(IpAddr::V6(ip), true) == is_fetch_blocked(
                IpAddr::V4(last_v4(ip)),
                true,
            )
        }),
{
    let s = ip.segments@;
    let nowhere = s[0] == 0 && s[1] == 0 && s[2] == 0 && s[3] == 0 && s[4] == 0 && s[5] == 0
        && s[6] == 0 && s[7] == 0;
    if nowhere {
        assert(zero_from(segments(ip), 0));
    } else if zero_from(segments(ip), 0) {
        assert(s[0] == 0 && s[1] == 0 && s[2] == 0 && s[3] == 0);
        assert(s[4] == 0 && s[5] == 0 && s[6] == 0 && s[7] == 0);
    }
    assert((s[6] / 256) * 256 + s[6] % 256 == s[6]);
    assert((s[7] / 256) * 256 + s[7] % 256 == s[7]);
    let octets = last_v4(ip).octets@;
    assert(octets[0] == s[6] / 256 && octets[1] == s[6] % 256);
    assert(octets[2] == s[7] / 256 && octets[3] == s[7] % 256);
}

} // verus!
