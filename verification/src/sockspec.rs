//! Listen specs: the endpoints that `[socket] listen` declares and that a
//! socket readiness check connects to.

use crate::text::{
    all_digits, contents, decimal, decimal_reads_back, decimals_begin_with_no_zero, digit_value,
    digits_value, find_char, from_chars, in_range, is_digit, is_space, lemma_decimal_digits,
    lemma_split_nonempty, lemma_trimmed_line, parse_unsigned, rfind_char, same,
    separators_part_texts, split, split_chars, to_chars, trim, trim_back, trim_front, trimmed,
    trimming_removes_only_space, unsigned_value, Text,
};
use vstd::prelude::*;
use vstd::utf8::*;

verus! {

/// Protocol of the listen specs that carry no `tcp:`/`udp:`/`unix:` prefix.
pub const DEFAULT_SOCKET_TYPE: &'static str = "tcp";

pub fn default_type() -> (r: &'static str)
    ensures
        r@ == "tcp"@,
{
    DEFAULT_SOCKET_TYPE
}

/// An IPv4 address, most significant octet first.
#[derive(Debug, Clone, Copy, PartialEq, Eq)]
pub struct Ipv4Addr {
    pub octets: [u8; 4],
}

impl Ipv4Addr {
    pub fn new(a: u8, b: u8, c: u8, d: u8) -> (r: Self)
        ensures
            r.octets@ == seq![a, b, c, d],
    {
        Ipv4Addr { octets: [a, b, c, d] }
    }
}

/// An IPv6 address, most significant group first.
#[derive(Debug, Clone, Copy, PartialEq, Eq)]
pub struct Ipv6Addr {
    pub segments: [u16; 8],
}

impl Ipv6Addr {
    pub fn new(a: u16, b: u16, c: u16, d: u16, e: u16, f: u16, g: u16, h: u16) -> (r: Self)
        ensures
            r.segments@ == seq![a, b, c, d, e, f, g, h],
    {
        Ipv6Addr { segments: [a, b, c, d, e, f, g, h] }
    }
}

#[derive(Debug, Clone, Copy, PartialEq, Eq)]
pub enum IpAddr {
    V4(Ipv4Addr),
    V6(Ipv6Addr),
}

#[derive(Debug, Clone, Copy, PartialEq, Eq)]
pub struct SocketAddr {
    pub ip: IpAddr,
    pub port: u16,
}

impl SocketAddr {
    pub fn new(ip: IpAddr, port: u16) -> (r: Self)
        ensures
            r.ip == ip,
            r.port == port,
    {
        SocketAddr { ip, port }
    }
}

/// Normalized description of a listening endpoint declared in
/// `[socket] listen` or used as a readiness connect target.
#[derive(Debug, Clone, PartialEq, Eq)]
pub enum ListenSpec {
    Tcp { addr: SocketAddr },
    Udp { addr: SocketAddr },
    Unix { path: String },
}

/// The number that an address is.
pub enum Ip {
    V4(Seq<u8>),
    V6(Seq<u16>),
}

/// An endpoint.
pub enum Endpoint {
    Tcp(Ip, u16),
    Udp(Ip, u16),
    Unix(Text),
}

impl View for IpAddr {
    type V = Ip;

    open spec fn view(&self) -> Ip {
        match self {
            IpAddr::V4(a) => Ip::V4(a.octets@),
            IpAddr::V6(a) => Ip::V6(a.segments@),
        }
    }
}

impl View for ListenSpec {
    type V = Endpoint;

    open spec fn view(&self) -> Endpoint {
        match self {
            ListenSpec::Tcp { addr } => Endpoint::Tcp(addr.ip@, addr.port),
            ListenSpec::Udp { addr } => Endpoint::Udp(addr.ip@, addr.port),
            ListenSpec::Unix { path } => Endpoint::Unix(path@),
        }
    }
}

// ---------------------------------------------------------------------------
// IP literals
// ---------------------------------------------------------------------------

/// The number written by one to three decimal digits, at most 255, without a
/// leading zero.
pub open spec fn octet(t: Text) -> Option<u8> {
    if 1 <= t.len() <= 3 && all_digits(t) && (t.len() == 1 || t[0] != '0') && digits_value(t)
        <= 255 {
        Some(digits_value(t) as u8)
    } else {
        None
    }
}

/// The octets that the parts write, if each of them writes one.
pub open spec fn octets(parts: Seq<Text>) -> Option<Seq<u8>>
    decreases parts.len(),
{
    if parts.len() == 0 {
        Some(Seq::empty())
    } else {
        match (octets(parts.drop_last()), octet(parts.last())) {
            (Some(before), Some(last)) => Some(before.push(last)),
            _ => None,
        }
    }
}

/// The IPv4 address in dotted notation: four octets.
pub open spec fn ipv4_literal(s: Text) -> Option<Seq<u8>> {
    match octets(split(s, '.')) {
        Some(v) => if v.len() == 4 {
            Some(v)
        } else {
            None
        },
        None => None,
    }
}

/// The value of a hexadecimal digit of either case.
pub open spec fn hex_digit(c: char) -> Option<int> {
    if is_digit(c) {
        Some(digit_value(c))
    } else if 'a' <= c <= 'f' {
        Some(c as int - 'a' as int + 10)
    } else if 'A' <= c <= 'F' {
        Some(c as int - 'A' as int + 10)
    } else {
        None
    }
}

/// The number written by hexadecimal digits, most significant first.
pub open spec fn hex_value(s: Text) -> Option<int>
    decreases s.len(),
{
    if s.len() == 0 {
        Some(0)
    } else {
        match (hex_value(s.drop_last()), hex_digit(s.last())) {
            (Some(before), Some(d)) => Some(before * 16 + d),
            _ => None,
        }
    }
}

/// The number written by one to four hexadecimal digits.
pub open spec fn group(t: Text) -> Option<u16> {
    if 1 <= t.len() <= 4 {
        match hex_value(t) {
            Some(v) => Some(v as u16),
            None => None,
        }
    } else {
        None
    }
}

/// The groups that the parts write, if each of them writes one.
pub open spec fn hex_groups(parts: Seq<Text>) -> Option<Seq<u16>>
    decreases parts.len(),
{
    if parts.len() == 0 {
        Some(Seq::empty())
    } else {
        match (hex_groups(parts.drop_last()), group(parts.last())) {
            (Some(before), Some(last)) => Some(before.push(last)),
            _ => None,
        }
    }
}

/// The two groups that an IPv4 address fills.
pub open spec fn embedded(v4: Seq<u8>) -> Seq<u16> {
    seq![(v4[0] * 256 + v4[1]) as u16, (v4[2] * 256 + v4[3]) as u16]
}

/// The groups that the parts write; the last part may be an IPv4 address,
/// which counts as two.
pub open spec fn mixed_groups(parts: Seq<Text>) -> Option<Seq<u16>> {
    if parts.len() > 0 && ipv4_literal(parts.last()) is Some {
        match hex_groups(parts.drop_last()) {
            Some(before) => Some(before + embedded(ipv4_literal(parts.last())->0)),
            None => None,
        }
    } else {
        hex_groups(parts)
    }
}

/// The place of the first `::` at or after `i`.
pub open spec fn double_colon(s: Text, i: int) -> Option<int>
    decreases s.len() - i,
{
    if i < 0 || i + 1 >= s.len() {
        None
    } else if s[i] == ':' && s[i + 1] == ':' {
        Some(i)
    } else {
        double_colon(s, i + 1)
    }
}

/// The parts between colons; none where there is no text.
pub open spec fn colon_parts(s: Text) -> Seq<Text> {
    if s.len() == 0 {
        Seq::empty()
    } else {
        split(s, ':')
    }
}

/// The IPv6 address in colon notation: eight groups, or fewer around one `::`,
/// which stands for at least one group of zeros. An IPv4 address may stand in
/// place of the last two groups.
pub open spec fn ipv6_literal(s: Text) -> Option<Seq<u16>> {
    match double_colon(s, 0) {
        None => match mixed_groups(split(s, ':')) {
            Some(g) => if g.len() == 8 {
                Some(g)
            } else {
                None
            },
            None => None,
        },
        Some(i) => match (
            hex_groups(colon_parts(s.take(i))),
            mixed_groups(colon_parts(s.skip(i + 2))),
        ) {
            (Some(h), Some(t)) => if h.len() + t.len() <= 7 {
                Some(h + Seq::new((8 - h.len() - t.len()) as nat, |j: int| 0u16) + t)
            } else {
                None
            },
            _ => None,
        },
    }
}

/// The address that a literal of either kind denotes.
pub open spec fn ip_literal(s: Text) -> Option<Ip> {
    match ipv4_literal(s) {
        Some(v) => Some(Ip::V4(v)),
        None => match ipv6_literal(s) {
            Some(v) => Some(Ip::V6(v)),
            None => None,
        },
    }
}

fn parse_octet(t: &Vec<char>) -> (r: Option<u8>)
    ensures
        r == octet(t@),
{
    if t.len() == 0 || t.len() > 3 {
        return None;
    }
    let mut acc: u32 = 0;
    let mut i: usize = 0;
    while i < t.len()
        invariant
            i <= t@.len() <= 3,
            acc == digits_value(t@.take(i as int)),
            i == 0 ==> acc == 0,
            i == 1 ==> acc < 10,
            i == 2 ==> acc < 100,
            i == 3 ==> acc < 1000,
            forall|j: int| 0 <= j < i ==> is_digit(#[trigger] t@[j]),
        decreases t@.len() - i,
    {
        let c = t[i];
        if c < '0' || c > '9' {
            assert(!is_digit(t@[i as int]));
            return None;
        }
        assert(t@.take(i + 1).drop_last() =~= t@.take(i as int));
        acc = acc * 10 + (c as u32 - '0' as u32);
        i += 1;
    }
    assert(t@.take(i as int) =~= t@);
    if t.len() > 1 && t[0] == '0' {
        return None;
    }
    if acc > 255 {
        return None;
    }
    Some(acc as u8)
}

fn parse_octets(parts: &Vec<Vec<char>>) -> (r: Option<Vec<u8>>)
    ensures
        match r {
            Some(v) => octets(contents(parts@)) == Some(v@),
            None => octets(contents(parts@)) is None,
        },
{
    let ghost ps = contents(parts@);
    let mut out: Vec<u8> = Vec::new();
    let mut i: usize = 0;
    assert(out@ =~= Seq::<u8>::empty());
    while i < parts.len()
        invariant
            i <= parts@.len(),
            ps == contents(parts@),
            octets(ps.take(i as int)) == Some(out@),
        decreases parts@.len() - i,
    {
        assert(ps.take(i + 1).drop_last() =~= ps.take(i as int));
        assert(ps.take(i + 1).last() == parts@[i as int]@);
        match parse_octet(&parts[i]) {
            Some(o) => out.push(o),
            None => {
                proof {
                    lemma_octets_prefix(ps, i + 1);
                }
                return None;
            },
        }
        i += 1;
    }
    assert(ps.take(i as int) =~= ps);
    Some(out)
}

proof fn lemma_octets_prefix(parts: Seq<Text>, k: int)
    requires
        0 <= k <= parts.len(),
        octets(parts.take(k)) is None,
    ensures
        octets(parts) is None,
    decreases parts.len(),
{
    if k == parts.len() {
        assert(parts.take(k) =~= parts);
    } else {
        assert(parts.drop_last().take(k) =~= parts.take(k));
        lemma_octets_prefix(parts.drop_last(), k);
    }
}

fn parse_ipv4(v: &Vec<char>, from: usize, to: usize) -> (r: Option<Vec<u8>>)
    requires
        from <= to <= v@.len(),
    ensures
        match r {
            Some(o) => ipv4_literal(v@.subrange(from as int, to as int)) == Some(o@) && o@.len()
                == 4,
            None => ipv4_literal(v@.subrange(from as int, to as int)) is None,
        },
{
    let parts = split_chars(v, from, to, '.');
    match parse_octets(&parts) {
        Some(o) => if o.len() == 4 {
            Some(o)
        } else {
            None
        },
        None => None,
    }
}

fn parse_hex_digit(c: char) -> (r: Option<u32>)
    ensures
        match r {
            Some(d) => hex_digit(c) == Some(d as int) && d < 16,
            None => hex_digit(c) is None,
        },
{
    if '0' <= c && c <= '9' {
        Some(c as u32 - '0' as u32)
    } else if 'a' <= c && c <= 'f' {
        Some(c as u32 - 'a' as u32 + 10)
    } else if 'A' <= c && c <= 'F' {
        Some(c as u32 - 'A' as u32 + 10)
    } else {
        None
    }
}

fn parse_group(t: &Vec<char>) -> (r: Option<u16>)
    ensures
        r == group(t@),
{
    if t.len() == 0 || t.len() > 4 {
        return None;
    }
    let mut acc: u32 = 0;
    let mut i: usize = 0;
    while i < t.len()
        invariant
            i <= t@.len() <= 4,
            hex_value(t@.take(i as int)) == Some(acc as int),
            i == 0 ==> acc == 0,
            i == 1 ==> acc < 0x10,
            i == 2 ==> acc < 0x100,
            i == 3 ==> acc < 0x1000,
            i == 4 ==> acc < 0x10000,
        decreases t@.len() - i,
    {
        assert(t@.take(i + 1).drop_last() =~= t@.take(i as int));
        match parse_hex_digit(t[i]) {
            Some(d) => {
                acc = acc * 16 + d;
            },
            None => {
                proof {
                    lemma_hex_prefix(t@, i + 1);
                }
                return None;
            },
        }
        i += 1;
    }
    assert(t@.take(i as int) =~= t@);
    Some(acc as u16)
}

proof fn lemma_hex_prefix(s: Text, k: int)
    requires
        0 <= k <= s.len(),
        hex_value(s.take(k)) is None,
    ensures
        hex_value(s) is None,
    decreases s.len(),
{
    if k == s.len() {
        assert(s.take(k) =~= s);
    } else {
        assert(s.drop_last().take(k) =~= s.take(k));
        lemma_hex_prefix(s.drop_last(), k);
    }
}

fn parse_hex_groups(parts: &Vec<Vec<char>>, count: usize) -> (r: Option<Vec<u16>>)
    requires
        count <= parts@.len(),
    ensures
        match r {
            Some(v) => hex_groups(contents(parts@).take(count as int)) == Some(v@) && v@.len()
                == count,
            None => hex_groups(contents(parts@).take(count as int)) is None,
        },
{
    let ghost ps = contents(parts@).take(count as int);
    let mut out: Vec<u16> = Vec::new();
    let mut i: usize = 0;
    assert(out@ =~= Seq::<u16>::empty());
    while i < count
        invariant
            i <= count <= parts@.len(),
            ps == contents(parts@).take(count as int),
            hex_groups(ps.take(i as int)) == Some(out@),
            out@.len() == i,
        decreases count - i,
    {
        assert(ps.take(i + 1).drop_last() =~= ps.take(i as int));
        assert(ps.take(i + 1).last() == parts@[i as int]@);
        match parse_group(&parts[i]) {
            Some(g) => out.push(g),
            None => {
                proof {
                    lemma_groups_prefix(ps, i + 1);
                }
                return None;
            },
        }
        i += 1;
    }
    assert(ps.take(i as int) =~= ps);
    Some(out)
}

proof fn lemma_groups_prefix(parts: Seq<Text>, k: int)
    requires
        0 <= k <= parts.len(),
        hex_groups(parts.take(k)) is None,
    ensures
        hex_groups(parts) is None,
    decreases parts.len(),
{
    if k == parts.len() {
        assert(parts.take(k) =~= parts);
    } else {
        assert(parts.drop_last().take(k) =~= parts.take(k));
        lemma_groups_prefix(parts.drop_last(), k);
    }
}

fn parse_mixed_groups(parts: &Vec<Vec<char>>) -> (r: Option<Vec<u16>>)
    ensures
        match r {
            Some(v) => mixed_groups(contents(parts@)) == Some(v@),
            None => mixed_groups(contents(parts@)) is None,
        },
{
    let ghost ps = contents(parts@);
    let n = parts.len();
    if n > 0 {
        let last = &parts[n - 1];
        assert(ps.last() == last@);
        assert(last@.subrange(0, last@.len() as int) =~= last@);
        match parse_ipv4(last, 0, last.len()) {
            Some(o) => {
                assert(ps.take(n - 1) =~= ps.drop_last());
                match parse_hex_groups(parts, n - 1) {
                    Some(mut v) => {
                        let ghost before = v@;
                        v.push((o[0] as u16) * 256 + o[1] as u16);
                        v.push((o[2] as u16) * 256 + o[3] as u16);
                        assert(v@ =~= before + embedded(o@));
                        return Some(v);
                    },
                    None => {
                        return None;
                    },
                }
            },
            None => {},
        }
    }
    assert(ps.take(n as int) =~= ps);
    parse_hex_groups(parts, n)
}

fn find_double_colon(v: &Vec<char>) -> (r: Option<usize>)
    ensures
        match r {
            Some(i) => double_colon(v@, 0) == Some(i as int) && i + 1 < v@.len(),
            None => double_colon(v@, 0) is None,
        },
{
    let mut i: usize = 0;
    while i < v.len() && i < v.len() - 1
        invariant
            i <= v@.len(),
            double_colon(v@, 0) == double_colon(v@, i as int),
        decreases v@.len() - i,
    {
        if v[i] == ':' && v[i + 1] == ':' {
            return Some(i);
        }
        i += 1;
    }
    None
}

fn split_colons(v: &Vec<char>, from: usize, to: usize) -> (r: Vec<Vec<char>>)
    requires
        from <= to <= v@.len(),
    ensures
        contents(r@) == colon_parts(v@.subrange(from as int, to as int)),
{
    if from == to {
        let none: Vec<Vec<char>> = Vec::new();
        assert(contents(none@) =~= Seq::<Text>::empty());
        none
    } else {
        split_chars(v, from, to, ':')
    }
}

fn to_segments(v: &Vec<u16>) -> (r: [u16; 8])
    requires
        v@.len() == 8,
    ensures
        r@ == v@,
{
    let r = [v[0], v[1], v[2], v[3], v[4], v[5], v[6], v[7]];
    assert(r@ =~= v@);
    r
}

fn parse_ipv6(v: &Vec<char>) -> (r: Option<Ipv6Addr>)
    ensures
        match r {
            Some(a) => ipv6_literal(v@) == Some(a.segments@),
            None => ipv6_literal(v@) is None,
        },
{
    let n = v.len();
    match find_double_colon(v) {
        None => {
            assert(v@.subrange(0, v@.len() as int) =~= v@);
            let parts = split_chars(v, 0, v.len(), ':');
            match parse_mixed_groups(&parts) {
                Some(g) => if g.len() == 8 {
                    Some(Ipv6Addr { segments: to_segments(&g) })
                } else {
                    None
                },
                None => None,
            }
        },
        Some(i) => {
            assert(v@.subrange(0, i as int) =~= v@.take(i as int));
            assert(v@.subrange(i + 2, v@.len() as int) =~= v@.skip(i + 2));
            let head_parts = split_colons(v, 0, i);
            let tail_parts = split_colons(v, i + 2, n);
            assert(contents(head_parts@).take(head_parts@.len() as int) =~= contents(head_parts@));
            let head = parse_hex_groups(&head_parts, head_parts.len());
            let tail = parse_mixed_groups(&tail_parts);
            match (head, tail) {
                (Some(h), Some(t)) => {
                    if h.len() > 7 || t.len() > 7 - h.len() {
                        return None;
                    }
                    let gap = 8 - h.len() - t.len();
                    let ghost zeros = Seq::new(gap as nat, |j: int| 0u16);
                    let mut all: Vec<u16> = Vec::new();
                    let mut k: usize = 0;
                    while k < 8
                        invariant
                            k <= 8,
                            h@.len() + t@.len() + gap == 8,
                            zeros == Seq::new(gap as nat, |j: int| 0u16),
                            all@ == (h@ + zeros + t@).take(k as int),
                        decreases 8 - k,
                    {
                        let ghost whole = h@ + zeros + t@;
                        let x: u16 = if k < h.len() {
                            h[k]
                        } else if k < h.len() + gap {
                            0
                        } else {
                            t[k - h.len() - gap]
                        };
                        assert(x == whole[k as int]);
                        assert(whole.take(k + 1) =~= whole.take(k as int).push(x));
                        all.push(x);
                        k += 1;
                    }
                    assert((h@ + zeros + t@).take(8) =~= h@ + zeros + t@);
                    Some(Ipv6Addr { segments: to_segments(&all) })
                },
                _ => None,
            }
        },
    }
}

/// Reads an IP literal of either kind.
fn parse_ip_literal(s: &str) -> (r: Option<IpAddr>)
    ensures
        match r {
            Some(a) => ip_literal(s@) == Some(a@),
            None => ip_literal(s@) is None,
        },
{
    let v = to_chars(s);
    assert(v@.subrange(0, v@.len() as int) =~= v@);
    match parse_ipv4(&v, 0, v.len()) {
        Some(o) => {
            let octets = [o[0], o[1], o[2], o[3]];
            assert(octets@ =~= o@);
            Some(IpAddr::V4(Ipv4Addr { octets }))
        },
        None => match parse_ipv6(&v) {
            Some(a) => Some(IpAddr::V6(a)),
            None => None,
        },
    }
}

// ---------------------------------------------------------------------------
// Listen specs
// ---------------------------------------------------------------------------

/// The address of a host, which must be an IP literal: `*` and nothing at all
/// mean any IPv4 address.
pub open spec fn host_address(host: Text) -> Result<Ip, Text> {
    match ip_literal(host) {
        Some(ip) => Ok(ip),
        None => if host == "*"@ || host == ""@ {
            Ok(Ip::V4(seq![0u8, 0u8, 0u8, 0u8]))
        } else {
            Err(
                "'"@ + host
                    + "' is not an IP literal; use an IP address (or 0.0.0.0 / :: / *) — name resolution is not available at boot"@,
            )
        },
    }
}

/// The number of a port: 1 to 65535.
pub open spec fn port_number(s: Text) -> Result<u16, Text> {
    match in_range(unsigned_value(s), 0, 65535) {
        None => Err("invalid port '"@ + s + "'"@),
        Some(p) => if p == 0 {
            Err("binding port 0 (ephemeral) is not supported; pick a fixed port"@)
        } else {
            Ok(p as u16)
        },
    }
}

/// The text of the host and of the port: `[v6]:port`, `host:port` or `port`.
pub open spec fn host_and_port(rest: Text) -> Result<(Text, Text), Text> {
    let s = trimmed(rest);
    if s.len() > 0 && s[0] == '[' {
        let inner = s.skip(1);
        match inner.index_of_first(']') {
            None => Err("unterminated '[' in listen spec '"@ + s + "'"@),
            Some(i) => {
                let after = inner.skip(i + 1);
                Ok(
                    (
                        inner.take(i),
                        if after.len() > 0 && after[0] == ':' {
                            after.skip(1)
                        } else {
                            ""@
                        },
                    ),
                )
            },
        }
    } else {
        match s.index_of_last(':') {
            Some(i) => Ok(
                (
                    if i == 0 {
                        "0.0.0.0"@
                    } else {
                        s.take(i)
                    },
                    s.skip(i + 1),
                ),
            ),
            None => Ok(("0.0.0.0"@, s)),
        }
    }
}

/// The protocol of a spec and what follows its prefix.
pub open spec fn protocol_of(s: Text, default_type: Text) -> (Text, Text) {
    match s.index_of_first(':') {
        Some(i) => {
            let p = s.take(i);
            if p == "tcp"@ || p == "udp"@ || p == "unix"@ {
                (p, s.skip(i + 1))
            } else {
                (default_type, s)
            }
        },
        None => (default_type, s),
    }
}

/// The address and port that a host and port text denote. The port is read
/// before the host, so a bad port is reported first.
pub open spec fn inet_address(rest: Text) -> Result<(Ip, u16), Text> {
    match host_and_port(rest) {
        Err(m) => Err(m),
        Ok((host, port)) => match port_number(port) {
            Err(m) => Err(m),
            Ok(p) => match host_address(host) {
                Err(m) => Err(m),
                Ok(ip) => Ok((ip, p)),
            },
        },
    }
}

/// The endpoint that a listen spec denotes, or what is wrong with it.
pub open spec fn endpoint_of(spec: Text, default_type: Text) -> Result<Endpoint, Text> {
    let s = trimmed(spec);
    if s.len() == 0 {
        Err("empty listen spec"@)
    } else {
        let (proto, rest) = protocol_of(s, default_type);
        if proto == "tcp"@ {
            match inet_address(rest) {
                Ok((ip, port)) => Ok(Endpoint::Tcp(ip, port)),
                Err(m) => Err(m),
            }
        } else if proto == "udp"@ {
            match inet_address(rest) {
                Ok((ip, port)) => Ok(Endpoint::Udp(ip, port)),
                Err(m) => Err(m),
            }
        } else if proto == "unix"@ {
            if rest.len() == 0 {
                Err("unix socket path is empty"@)
            } else {
                Ok(Endpoint::Unix(rest))
            }
        } else {
            Err("unsupported socket type '"@ + proto + "'"@)
        }
    }
}

/// Parse a single listen spec.
///
/// Supported forms (an optional `tcp:`/`udp:`/`unix:` prefix overrides
/// `default_type`):
///
/// - `22` / `tcp:22` - TCP on port 22, any IPv4 address
/// - `tcp:127.0.0.1:8000` - TCP on a specific address
/// - `udp:53` - UDP on port 53
/// - `[::]:80` / `tcp:[::]:80` - TCP on any IPv6 address
/// - `unix:/run/x.sock` - Unix stream socket
///
/// Hosts must be IP literals: at boot time a resolver may not be available.
pub fn parse_listen_spec(spec: &str, default_type: &str) -> (r: Result<ListenSpec, String>)
    ensures
        match r {
            Ok(l) => endpoint_of(spec@, default_type@) == Ok::<Endpoint, Text>(l@),
            Err(m) => endpoint_of(spec@, default_type@) == Err::<Endpoint, Text>(m@),
        },
{
    let s = trim(spec);
    let v = to_chars(s.as_str());
    if v.len() == 0 {
        return Err("empty listen spec".to_string());
    }
    let (proto, rest) = split_protocol(&v, default_type);
    if same(proto.as_str(), "tcp") {
        match parse_inet(rest.as_str()) {
            Ok(addr) => Ok(ListenSpec::Tcp { addr }),
            Err(m) => Err(m),
        }
    } else if same(proto.as_str(), "udp") {
        match parse_inet(rest.as_str()) {
            Ok(addr) => Ok(ListenSpec::Udp { addr }),
            Err(m) => Err(m),
        }
    } else if same(proto.as_str(), "unix") {
        let path = to_chars(rest.as_str());
        if path.len() == 0 {
            Err("unix socket path is empty".to_string())
        } else {
            Ok(ListenSpec::Unix { path: rest })
        }
    } else {
        Err("unsupported socket type '".to_string().concat(proto.as_str()).concat("'"))
    }
}

fn split_protocol(v: &Vec<char>, default_type: &str) -> (r: (String, String))
    ensures
        (r.0@, r.1@) == protocol_of(v@, default_type@),
{
    let n = v.len();
    assert(v@.skip(0) =~= v@);
    assert(v@.subrange(0, v@.len() as int) =~= v@);
    match find_char(v, 0, ':') {
        Some(i) => {
            let p = from_chars(v, 0, i);
            assert(v@.subrange(0, i as int) =~= v@.take(i as int));
            assert(v@.subrange(i + 1, v@.len() as int) =~= v@.skip(i + 1));
            if same(p.as_str(), "tcp") || same(p.as_str(), "udp") || same(p.as_str(), "unix") {
                (p, from_chars(v, i + 1, n))
            } else {
                (default_type.to_string(), from_chars(v, 0, n))
            }
        },
        None => (default_type.to_string(), from_chars(v, 0, n)),
    }
}

fn parse_inet(rest: &str) -> (r: Result<SocketAddr, String>)
    ensures
        match r {
            Ok(a) => inet_address(rest@) == Ok::<(Ip, u16), Text>((a.ip@, a.port)),
            Err(m) => inet_address(rest@) == Err::<(Ip, u16), Text>(m@),
        },
{
    match split_host_port(rest) {
        Err(m) => Err(m),
        Ok((host, port)) => match parse_ip(host.as_str()) {
            Err(m) => Err(m),
            Ok(ip) => Ok(SocketAddr::new(ip, port)),
        },
    }
}

/// Parse a host:port string. `[v6]:port` and bare `port` are accepted.
pub fn split_host_port(rest: &str) -> (r: Result<(String, u16), String>)
    ensures
        match r {
            Ok((host, port)) => host_and_port(rest@) matches Ok((h, p)) && h == host@
                && port_number(p) == Ok::<u16, Text>(port),
            Err(m) => match host_and_port(rest@) {
                Ok((h, p)) => port_number(p) == Err::<u16, Text>(m@),
                Err(n) => n == m@,
            },
        },
{
    let s = trim(rest);
    let v = to_chars(s.as_str());
    proof {
        reveal_strlit("");
    }
    if v.len() > 0 && v[0] == '[' {
        match find_char(&v, 1, ']') {
            None => Err(
                "unterminated '[' in listen spec '".to_string().concat(s.as_str()).concat("'"),
            ),
            Some(i) => {
                let ghost inner = v@.skip(1);
                assert(v@.subrange(1, i as int) =~= inner.take(i - 1));
                assert(v@.skip(i + 1) =~= inner.skip(i as int));
                let host = from_chars(&v, 1, i);
                let port_text = if i + 1 < v.len() && v[i + 1] == ':' {
                    assert(v@.subrange(i + 2, v@.len() as int) =~= inner.skip(i as int).skip(1));
                    from_chars(&v, i + 2, v.len())
                } else {
                    "".to_string()
                };
                match parse_port(port_text.as_str()) {
                    Ok(port) => Ok((host, port)),
                    Err(m) => Err(m),
                }
            },
        }
    } else {
        match rfind_char(&v, ':') {
            Some(i) => {
                assert(v@.subrange(0, i as int) =~= v@.take(i as int));
                assert(v@.subrange(i + 1, v@.len() as int) =~= v@.skip(i + 1));
                let host = if i == 0 {
                    "0.0.0.0".to_string()
                } else {
                    from_chars(&v, 0, i)
                };
                match parse_port(from_chars(&v, i + 1, v.len()).as_str()) {
                    Ok(port) => Ok((host, port)),
                    Err(m) => Err(m),
                }
            },
            None => match parse_port(s.as_str()) {
                Ok(port) => Ok(("0.0.0.0".to_string(), port)),
                Err(m) => Err(m),
            },
        }
    }
}

pub fn parse_port(s: &str) -> (r: Result<u16, String>)
    ensures
        match r {
            Ok(p) => port_number(s@) == Ok::<u16, Text>(p),
            Err(m) => port_number(s@) == Err::<u16, Text>(m@),
        },
{
    match parse_unsigned(s, 65535) {
        None => Err("invalid port '".to_string().concat(s).concat("'")),
        Some(p) => if p == 0 {
            Err("binding port 0 (ephemeral) is not supported; pick a fixed port".to_string())
        } else {
            Ok(p as u16)
        },
    }
}

/// Resolve a host string to an IP literal.
pub fn parse_ip(host: &str) -> (r: Result<IpAddr, String>)
    ensures
        match r {
            Ok(ip) => host_address(host@) == Ok::<Ip, Text>(ip@),
            Err(m) => host_address(host@) == Err::<Ip, Text>(m@),
        },
{
    match parse_ip_literal(host) {
        Some(ip) => Ok(ip),
        None => if same(host, "*") || same(host, "") {
            Ok(IpAddr::V4(Ipv4Addr::new(0, 0, 0, 0)))
        } else {
            Err(
                "'".to_string().concat(host).concat(
                    "' is not an IP literal; use an IP address (or 0.0.0.0 / :: / *) — name resolution is not available at boot",
                ),
            )
        },
    }
}

// ---------------------------------------------------------------------------
// Connect probes
// ---------------------------------------------------------------------------

/// The longest Unix socket path in bytes, with its final NUL.
pub const UNIX_PATH_MAX: usize = 108;

/// The bytes of a Unix socket path as they go into a socket address; none
/// where the path holds a NUL or does not fit with the NUL that ends it.
pub fn unix_path_bytes(path: &str) -> (r: Option<Vec<u8>>)
    ensures
        ({
            let bytes = encode_utf8(path@);
            match r {
                Some(b) => b@ == bytes && !bytes.contains(0u8) && bytes.len() < UNIX_PATH_MAX,
                None => bytes.contains(0u8) || bytes.len() >= UNIX_PATH_MAX,
            }
        }),
        r is Some <==> !encode_utf8(path@).contains(0u8) && encode_utf8(path@).len() <= 107,
{
    let b = path.as_bytes();
    let mut out: Vec<u8> = Vec::new();
    let mut i: usize = 0;
    while i < b.len()
        invariant
            i <= b@.len(),
            b@ == encode_utf8(path@),
            out@ == b@.take(i as int),
            forall|j: int| 0 <= j < i ==> b@[j] != 0u8,
        decreases b@.len() - i,
    {
        if b[i] == 0 {
            return None;
        }
        assert(b@.take(i + 1) =~= b@.take(i as int).push(b@[i as int]));
        out.push(b[i]);
        i += 1;
    }
    assert(b@.take(i as int) =~= b@);
    if out.len() >= UNIX_PATH_MAX {
        None
    } else {
        Some(out)
    }
}

/// What came of a UDP probe: an empty datagram sent to the endpoint, and a
/// bounded wait for an answer.
#[derive(Debug, Clone, Copy, PartialEq, Eq, Structural)]
pub enum UdpReply {
    /// No local socket could be had, or it could not be connected.
    Unsent,
    /// Something was received.
    Datagram,
    /// The host answered that nothing is bound to the port.
    Refused,
    /// Nothing came within the time, or the wait failed otherwise.
    Silence,
}

/// Whether a UDP endpoint counts as up: nothing has proved that it is down.
pub fn udp_is_up(reply: UdpReply) -> (r: bool)
    ensures
        r == (reply is Datagram || reply is Silence),
{
    match reply {
        UdpReply::Datagram | UdpReply::Silence => true,
        UdpReply::Unsent | UdpReply::Refused => false,
    }
}

/// What came of a connect to a Unix stream socket that does not block.
#[derive(Debug, Clone, Copy, PartialEq, Eq, Structural)]
pub enum UnixReply {
    /// The path is unusable or no local socket could be had.
    Unsent,
    Connected,
    /// The connection is under way; `writable` if the socket became writable
    /// in time, `error` the socket's pending error where it could be read.
    Pending { writable: bool, error: Option<i32> },
    /// Refused at once: no such path, nobody listening, or a full queue.
    Refused,
}

/// Whether a Unix endpoint accepts connections.
pub fn unix_is_up(reply: UnixReply) -> (r: bool)
    ensures
        r == (reply is Connected || (reply matches UnixReply::Pending { writable, error }
            && writable && error == Some(0i32))),
{
    match reply {
        UnixReply::Connected => true,
        UnixReply::Pending { writable, error } => writable && match error {
            Some(e) => e == 0,
            None => false,
        },
        UnixReply::Unsent | UnixReply::Refused => false,
    }
}

/// A timeout as `poll` takes it.
pub fn poll_timeout(ms: u64) -> (r: i32)
    ensures
        r == if ms <= i32::MAX {
            ms as int
        } else {
            i32::MAX as int
        },
{
    if ms <= i32::MAX as u64 {
        ms as i32
    } else {
        i32::MAX
    }
}

// ---------------------------------------------------------------------------
// Laws
// ---------------------------------------------------------------------------

proof fn lemma_trim_back_prefix(a: Text, b: Text)
    requires
        a.len() > 0,
        !is_space(a.last()),
    ensures
        trim_back(a + b) == a + trim_back(b),
    decreases b.len(),
{
    let whole = a + b;
    if b.len() == 0 {
        assert(whole =~= a);
        assert(a + trim_back(b) =~= a);
    } else {
        assert(whole.last() == b.last());
        assert(whole.drop_last() =~= a + b.drop_last());
        if is_space(b.last()) {
            lemma_trim_back_prefix(a, b.drop_last());
        }
    }
}

/// A `tcp:`, `udp:` or `unix:` prefix decides the protocol, whatever the
/// default is.
pub proof fn prefix_overrides_default(proto: Text, rest: Text, default1: Text, default2: Text)
    requires
        proto == "tcp"@ || proto == "udp"@ || proto == "unix"@,
    ensures
        protocol_of(trimmed(proto + ":"@ + rest), default1).0 == proto,
        endpoint_of(proto + ":"@ + rest, default1) == endpoint_of(proto + ":"@ + rest, default2),
{
    reveal_strlit("tcp");
    reveal_strlit("udp");
    reveal_strlit("unix");
    reveal_strlit(":");
    let head = proto + ":"@;
    let s = head + rest;
    assert(s =~= proto + ":"@ + rest);
    assert(head.last() == ':');
    assert(s[0] == proto[0]);
    assert(!is_space(s[0]));
    assert(trim_front(s) == s);
    lemma_trim_back_prefix(head, rest);
    let t = trimmed(s);
    assert(t == head + trim_back(rest));
    t.index_of_first_ensures(':');
    assert(t[proto.len() as int] == ':');
    assert forall|j: int| 0 <= j < proto.len() implies t[j] != ':' by {
        assert(t[j] == proto[j]);
    }
    assert(t.take(proto.len() as int) =~= proto);
}

/// No endpoint is bound to port 0, and an address is always complete.
pub proof fn endpoints_are_complete(spec: Text, default_type: Text)
    ensures
        match endpoint_of(spec, default_type) {
            Ok(Endpoint::Tcp(ip, port)) => port != 0 && is_complete(ip),
            Ok(Endpoint::Udp(ip, port)) => port != 0 && is_complete(ip),
            Ok(Endpoint::Unix(path)) => path.len() > 0,
            Err(_) => true,
        },
{
}

/// Whether an address has all its octets or groups.
pub open spec fn is_complete(ip: Ip) -> bool {
    match ip {
        Ip::V4(v) => v.len() == 4,
        Ip::V6(v) => v.len() == 8,
    }
}

/// What a spec says behind its prefix.
proof fn lemma_prefixed(proto: Text, rest: Text, default: Text)
    requires
        proto == "tcp"@ || proto == "udp"@ || proto == "unix"@,
    ensures
        trimmed(proto + ":"@ + rest).len() > 0,
        protocol_of(trimmed(proto + ":"@ + rest), default) == (proto, trim_back(rest)),
{
    reveal_strlit("tcp");
    reveal_strlit("udp");
    reveal_strlit("unix");
    reveal_strlit(":");
    let head = proto + ":"@;
    let s = head + rest;
    assert(s =~= proto + ":"@ + rest);
    assert(head.last() == ':');
    assert(s[0] == proto[0]);
    assert(!is_space(s[0]));
    assert(trim_front(s) == s);
    lemma_trim_back_prefix(head, rest);
    let t = trimmed(s);
    assert(t == head + trim_back(rest));
    t.index_of_first_ensures(':');
    assert(t[proto.len() as int] == ':');
    assert forall|j: int| 0 <= j < proto.len() implies t[j] != ':' by {
        assert(t[j] == proto[j]);
    }
    assert(t.take(proto.len() as int) =~= proto);
    assert(t.skip(proto.len() as int + 1) =~= trim_back(rest));
}

/// The protocol of a spec says how, not where: what stands behind `tcp:` and
/// behind `udp:` denotes the same address and port, or is wrong in the same way.
pub proof fn tcp_and_udp_specs_agree(rest: Text, default: Text)
    ensures
        match (endpoint_of("tcp:"@ + rest, default), endpoint_of("udp:"@ + rest, default)) {
            (Ok(Endpoint::Tcp(ip, port)), Ok(Endpoint::Udp(ip2, port2))) => ip == ip2 && port
                == port2,
            (Err(m), Err(m2)) => m == m2,
            _ => false,
        },
{
    reveal_strlit("tcp");
    reveal_strlit("udp");
    reveal_strlit("unix");
    reveal_strlit(":");
    reveal_strlit("tcp:");
    reveal_strlit("udp:");
    assert("tcp:"@ + rest =~= "tcp"@ + ":"@ + rest);
    assert("udp:"@ + rest =~= "udp"@ + ":"@ + rest);
    lemma_prefixed("tcp"@, rest, default);
    lemma_prefixed("udp"@, rest, default);
    assert("tcp"@[0] == 't' && "udp"@[0] == 'u');
}

/// A Unix spec denotes its path exactly, whatever the path holds, but for white
/// space at its end.
pub proof fn unix_specs_denote_their_path(path: Text, default: Text)
    requires
        path.len() > 0,
        !is_space(path.last()),
    ensures
        endpoint_of("unix:"@ + path, default) == Ok::<Endpoint, Text>(Endpoint::Unix(path)),
{
    reveal_strlit("tcp");
    reveal_strlit("udp");
    reveal_strlit("unix");
    reveal_strlit(":");
    reveal_strlit("unix:");
    assert("unix:"@ + path =~= "unix"@ + ":"@ + path);
    lemma_prefixed("unix"@, path, default);
    assert("tcp"@.len() == 3 && "udp"@.len() == 3 && "unix"@.len() == 4);
}

/// A port is written in decimal: 1 to 65535 are ports, 0 and anything larger are
/// not, nor is any other text.
pub proof fn ports_are_decimal_numbers(n: nat, s: Text)
    ensures
        1 <= n <= 65535 ==> port_number(decimal(n)) == Ok::<u16, Text>(n as u16),
        n == 0 ==> port_number(decimal(n)) == Err::<u16, Text>(
            "binding port 0 (ephemeral) is not supported; pick a fixed port"@,
        ),
        n > 65535 ==> port_number(decimal(n)) == Err::<u16, Text>(
            "invalid port '"@ + decimal(n) + "'"@,
        ),
        unsigned_value(s) is None ==> port_number(s) == Err::<u16, Text>(
            "invalid port '"@ + s + "'"@,
        ),
        port_number(s) matches Ok(p) ==> unsigned_value(s) == Some(p as int) && p > 0,
{
    decimal_reads_back(n);
}

proof fn lemma_plain_number(t: Text)
    requires
        t.len() > 0,
        all_digits(t),
        t.len() == 1 || t[0] != '0',
    ensures
        digits_value(t) >= 0,
        t.len() > 1 ==> digits_value(t) >= 10,
        t.len() == 1 ==> digits_value(t) < 10,
        decimal(digits_value(t) as nat) == t,
    decreases t.len(),
{
    reveal_with_fuel(digits_value, 2);
    assert(is_digit(t.last()));
    let init = t.drop_last();
    if t.len() == 1 {
        assert(init =~= Seq::<char>::empty());
        assert(decimal(digits_value(t) as nat) =~= t);
    } else {
        assert forall|i: int| 0 <= i < init.len() implies is_digit(#[trigger] init[i]) by {
            assert(is_digit(t[i]));
        }
        lemma_plain_number(init);
        if init.len() == 1 {
            assert(init[0] == t[0]);
            assert(is_digit(t[0]));
            assert(init.drop_last() =~= Seq::<char>::empty());
            assert(digits_value(init) == digit_value(t[0]));
        }
        let v = digits_value(t);
        assert(v / 10 == digits_value(init));
        assert(v % 10 == digit_value(t.last()));
        assert(decimal(v as nat) =~= t);
    }
}

/// An octet is a number up to 255 in plain decimal notation: nothing else is
/// one, and each number has one notation.
pub proof fn octets_are_plain_decimals(t: Text, v: u8)
    ensures
        octet(t) == Some(v) <==> t == decimal(v as nat),
        octet(t) is Some ==> 1 <= t.len() <= 3,
{
    reveal_with_fuel(decimal, 4);
    lemma_decimal_digits(v as nat);
    decimals_begin_with_no_zero(v as nat);
    assert(decimal(v as nat).len() <= 3);
    if octet(t) is Some {
        lemma_plain_number(t);
    }
    if t == decimal(v as nat) && t.len() > 1 {
        assert(v != 0);
    }
}

/// Several octets are read one by one.
pub proof fn octets_are_read_one_by_one(parts: Seq<Text>, v: Seq<u8>)
    ensures
        octets(parts) == Some(v) <==> v.len() == parts.len() && forall|i: int|
            0 <= i < parts.len() ==> octet(#[trigger] parts[i]) == Some(v[i]),
    decreases parts.len(),
{
    if parts.len() == 0 {
        if v.len() == 0 {
            assert(v =~= Seq::<u8>::empty());
        }
    } else {
        let init = parts.drop_last();
        if v.len() > 0 {
            octets_are_read_one_by_one(init, v.drop_last());
            assert(v.drop_last().push(v.last()) =~= v);
            assert(parts[parts.len() - 1] == parts.last());
            if octets(parts) == Some(v) {
                let w = octets(init)->0;
                assert(w.push(octet(parts.last())->0).drop_last() =~= w);
                assert forall|i: int| 0 <= i < parts.len() implies octet(#[trigger] parts[i])
                    == Some(v[i]) by {
                    if i < init.len() {
                        assert(init[i] == parts[i]);
                    }
                }
            } else if v.len() == parts.len() && forall|i: int|
                0 <= i < parts.len() ==> octet(#[trigger] parts[i]) == Some(v[i]) {
                assert forall|i: int| 0 <= i < init.len() implies octet(#[trigger] init[i]) == Some(
                    v.drop_last()[i],
                ) by {
                    assert(init[i] == parts[i]);
                }
                assert(octet(parts.last()) == Some(v[parts.len() - 1]));
            }
        }
    }
}

/// An IPv4 address is written as four plain decimal numbers with dots between
/// them, and every text of that form writes the address of these numbers.
pub proof fn ipv4_literals_are_four_decimals(s: Text, v: Seq<u8>)
    ensures
        ipv4_literal(s) == Some(v) <==> {
            &&& split(s, '.').len() == 4
            &&& v.len() == 4
            &&& forall|i: int| 0 <= i < 4 ==> #[trigger] split(s, '.')[i] == decimal(v[i] as nat)
        },
{
    let parts = split(s, '.');
    octets_are_read_one_by_one(parts, v);
    if octets(parts) == Some(v) && v.len() == 4 {
        assert forall|i: int| 0 <= i < 4 implies #[trigger] parts[i] == decimal(v[i] as nat) by {
            octets_are_plain_decimals(parts[i], v[i]);
        }
    }
    if parts.len() == 4 && v.len() == 4 && forall|i: int|
        0 <= i < 4 ==> #[trigger] parts[i] == decimal(v[i] as nat) {
        assert forall|i: int| 0 <= i < parts.len() implies octet(#[trigger] parts[i]) == Some(
            v[i],
        ) by {
            octets_are_plain_decimals(parts[i], v[i]);
        }
    }
}

/// The address of four numbers is read from their decimals with dots between
/// them.
pub proof fn ipv4_addresses_read_back(a: u8, b: u8, c: u8, d: u8)
    ensures
        ipv4_literal(
            decimal(a as nat) + "."@ + decimal(b as nat) + "."@ + decimal(c as nat) + "."@ + decimal(
                d as nat,
            ),
        ) == Some(seq![a, b, c, d]),
{
    reveal_strlit(".");
    let da = decimal(a as nat);
    let db = decimal(b as nat);
    let dc = decimal(c as nat);
    let dd = decimal(d as nat);
    lemma_no_mark(a as nat, '.');
    lemma_no_mark(b as nat, '.');
    lemma_no_mark(c as nat, '.');
    lemma_no_mark(d as nat, '.');
    let cd = dc.push('.') + dd;
    let bcd = db.push('.') + cd;
    let all = da.push('.') + bcd;
    assert(da + "."@ + db + "."@ + dc + "."@ + dd =~= all);
    separators_part_texts(dc, dd, '.');
    separators_part_texts(dd, dd, '.');
    separators_part_texts(db, cd, '.');
    separators_part_texts(da, bcd, '.');
    assert(split(all, '.') =~= seq![da, db, dc, dd]);
    ipv4_literals_are_four_decimals(all, seq![a, b, c, d]);
}

/// A number in decimal notation holds no other characters than digits.
proof fn lemma_no_mark(n: nat, mark: char)
    requires
        !is_digit(mark),
    ensures
        !decimal(n).contains(mark),
{
    lemma_decimal_digits(n);
    if decimal(n).contains(mark) {
        let i = choose|i: int| 0 <= i < decimal(n).len() && decimal(n)[i] == mark;
        assert(is_digit(decimal(n)[i]));
    }
}

/// A character of a text that is split is the separator or stands in a part.
proof fn lemma_split_chars(s: Text, sep: char, i: int)
    requires
        0 <= i < s.len(),
    ensures
        s[i] == sep || exists|k: int|
            0 <= k < split(s, sep).len() && (#[trigger] split(s, sep)[k]).contains(s[i]),
    decreases s.len(),
{
    let init = s.drop_last();
    let before = split(init, sep);
    let parts = split(s, sep);
    lemma_split_nonempty(init, sep);
    if i < init.len() {
        lemma_split_chars(init, sep, i);
        assert(init[i] == s[i]);
        if s[i] != sep {
            let k = choose|k: int|
                0 <= k < before.len() && (#[trigger] before[k]).contains(init[i]);
            let p = choose|p: int| 0 <= p < before[k].len() && before[k][p] == s[i];
            assert(parts[k].len() > p && parts[k][p] == s[i]);
            assert(parts[k].contains(s[i]));
        }
    } else if s[i] != sep {
        let k = parts.len() - 1;
        assert(parts[k][parts[k].len() - 1] == s[i]);
        assert(parts[k].contains(s[i]));
    }
}

proof fn lemma_ipv4_chars(h: Text, i: int)
    requires
        ipv4_literal(h) is Some,
        0 <= i < h.len(),
    ensures
        is_digit(h[i]) || h[i] == '.',
{
    let v = ipv4_literal(h)->0;
    ipv4_literals_are_four_decimals(h, v);
    lemma_split_chars(h, '.', i);
    if h[i] != '.' {
        let k = choose|k: int|
            0 <= k < split(h, '.').len() && (#[trigger] split(h, '.')[k]).contains(h[i]);
        if !is_digit(h[i]) {
            lemma_no_mark(v[k] as nat, h[i]);
        }
    }
}

proof fn lemma_ipv4_nonempty(h: Text)
    requires
        ipv4_literal(h) is Some,
    ensures
        h.len() > 0,
{
    if h.len() == 0 {
        separators_part_texts(h, h, '.');
        assert(!h.contains('.'));
        ipv4_literals_are_four_decimals(h, ipv4_literal(h)->0);
    }
}

/// Hexadecimal digits have their places, and mean the same in both cases.
pub proof fn hex_digits_have_places(a: Text, c: char, d: char)
    ensures
        'a' <= c <= 'f' && d as int == c as int - 32 ==> hex_digit(d) == hex_digit(c),
        hex_value(a.push(c)) == match (hex_value(a), hex_digit(c)) {
            (Some(before), Some(last)) => Some(before * 16 + last),
            _ => None,
        },
        hex_value(Seq::<char>::empty()) == Some(0int),
        hex_digit('0') == Some(0int) && hex_digit('9') == Some(9int) && hex_digit('a') == Some(10int)
            && hex_digit('f') == Some(15int),
        hex_digit(c) matches Some(v) ==> 0 <= v < 16,
        hex_digit(c) is Some <==> ('0' <= c <= '9' || 'a' <= c <= 'f' || 'A' <= c <= 'F'),
        (hex_digit(c) is Some && hex_digit(d) is Some && ('0' <= c <= d <= '9' || 'a' <= c <= d
            <= 'f')) ==> hex_digit(d)->0 - hex_digit(c)->0 == d as int - c as int,
{
    assert(a.push(c).drop_last() =~= a);
}

/// The groups of an IPv6 address are read one by one, each from one to four
/// hexadecimal digits.
pub proof fn groups_are_read_one_by_one(parts: Seq<Text>, v: Seq<u16>)
    ensures
        hex_groups(parts) == Some(v) <==> v.len() == parts.len() && forall|i: int|
            0 <= i < parts.len() ==> 1 <= (#[trigger] parts[i]).len() <= 4 && hex_value(parts[i])
                == Some(v[i] as int),
    decreases parts.len(),
{
    if parts.len() == 0 {
        if v.len() == 0 {
            assert(v =~= Seq::<u16>::empty());
        }
    } else {
        let init = parts.drop_last();
        if parts.last().len() <= 4 {
            lemma_hex_bound(parts.last());
        }
        if v.len() > 0 {
            groups_are_read_one_by_one(init, v.drop_last());
            assert(v.drop_last().push(v.last()) =~= v);
            assert(parts[parts.len() - 1] == parts.last());
            if hex_groups(parts) == Some(v) {
                let w = hex_groups(init)->0;
                assert(w.push(group(parts.last())->0).drop_last() =~= w);
                assert forall|i: int| 0 <= i < parts.len() implies 1 <= (#[trigger] parts[i]).len()
                    <= 4 && hex_value(parts[i]) == Some(v[i] as int) by {
                    if i < init.len() {
                        assert(init[i] == parts[i]);
                    }
                }
            } else if v.len() == parts.len() && forall|i: int|
                0 <= i < parts.len() ==> 1 <= (#[trigger] parts[i]).len() <= 4 && hex_value(
                    parts[i],
                ) == Some(v[i] as int) {
                assert forall|i: int| 0 <= i < init.len() implies 1 <= (#[trigger] init[i]).len()
                    <= 4 && hex_value(init[i]) == Some(v.drop_last()[i] as int) by {
                    assert(init[i] == parts[i]);
                }
                assert(hex_value(parts.last()) == Some(v[parts.len() - 1] as int));
            }
        }
    }
}

/// Four hexadecimal digits write a number below 2^16.
proof fn lemma_hex_bound(s: Text)
    requires
        s.len() <= 4,
    ensures
        hex_value(s) matches Some(v) ==> 0 <= v <= 0xffff,
{
    reveal_with_fuel(hex_value, 6);
}

/// The last two groups of an IPv6 address may be written as an IPv4 address:
/// two octets make a group, the first of them its upper half.
pub proof fn ipv4_tails_fill_two_groups(parts: Seq<Text>, tail: Text, v: Seq<u16>, o: Seq<u8>)
    requires
        hex_groups(parts) == Some(v),
        ipv4_literal(tail) == Some(o),
    ensures
        ({
            let g = mixed_groups(parts.push(tail));
            &&& g is Some
            &&& g->0.len() == parts.len() + 2
            &&& g->0.take(parts.len() as int) == v
            &&& g->0[parts.len() as int] == o[0] * 256 + o[1]
            &&& g->0[parts.len() as int + 1] == o[2] * 256 + o[3]
        }),
        mixed_groups(parts) is Some || (parts.len() > 0 && ipv4_literal(parts.last()) is Some),
{
    ipv4_literals_are_four_decimals(tail, o);
    groups_are_read_one_by_one(parts, v);
    assert(parts.push(tail).drop_last() =~= parts);
    let g = mixed_groups(parts.push(tail))->0;
    assert(g.take(parts.len() as int) =~= v);
}

/// Parts that end in no IPv4 address write plain groups.
pub proof fn plain_tails_are_groups(parts: Seq<Text>)
    requires
        parts.len() == 0 || ipv4_literal(parts.last()) is None,
    ensures
        mixed_groups(parts) == hex_groups(parts),
{
}

proof fn lemma_double_colon(s: Text, i: int)
    requires
        0 <= i,
    ensures
        match double_colon(s, i) {
            Some(k) => i <= k && k + 1 < s.len() && s[k] == ':' && s[k + 1] == ':' && forall|j: int|
                i <= j < k ==> !(#[trigger] s[j] == ':' && s[j + 1] == ':'),
            None => forall|j: int| i <= j && j + 1 < s.len() ==> !(#[trigger] s[j] == ':' && s[j + 1]
                == ':'),
        },
    decreases s.len() - i,
{
    if i + 1 < s.len() && !(s[i] == ':' && s[i + 1] == ':') {
        lemma_double_colon(s, i + 1);
    }
}

/// Without `::`, an IPv6 address is written by eight groups with colons between
/// them: its groups are those that the parts write, in order.
pub proof fn full_ipv6_literals_have_eight_groups(s: Text, v: Seq<u16>)
    requires
        forall|j: int| 0 <= j && j + 1 < s.len() ==> !(#[trigger] s[j] == ':' && s[j + 1] == ':'),
    ensures
        ipv6_literal(s) == Some(v) <==> mixed_groups(split(s, ':')) == Some(v) && v.len() == 8,
{
    lemma_double_colon(s, 0);
}

/// `::` stands for as many groups of zeros, one at least, as the groups before
/// and behind it leave: these keep their order at the two ends of the address.
pub proof fn double_colons_stand_for_zeros(
    head: Text,
    tail: Text,
    before: Seq<u16>,
    behind: Seq<u16>,
    i: int,
)
    requires
        head.len() == 0 || head.last() != ':',
        forall|j: int|
            0 <= j && j + 1 < head.len() ==> !(#[trigger] head[j] == ':' && head[j + 1] == ':'),
        head.len() == 0 ==> before.len() == 0,
        head.len() > 0 ==> hex_groups(split(head, ':')) == Some(before),
        tail.len() == 0 ==> behind.len() == 0,
        tail.len() > 0 ==> mixed_groups(split(tail, ':')) == Some(behind),
        0 <= i < 8,
    ensures
        ({
            let v = ipv6_literal(head + "::"@ + tail);
            &&& v is Some <==> before.len() + behind.len() <= 7
            &&& v is Some ==> v->0.len() == 8 && v->0[i] == if i < before.len() {
                before[i]
            } else if i < 8 - behind.len() {
                0
            } else {
                behind[i - (8 - behind.len())]
            }
        }),
{
    reveal_strlit("::");
    let s = head + "::"@ + tail;
    let n = head.len() as int;
    assert(s[n] == ':' && s[n + 1] == ':');
    lemma_double_colon(s, 0);
    assert forall|j: int| 0 <= j < n implies !(#[trigger] s[j] == ':' && s[j + 1] == ':') by {
        assert(s[j] == head[j]);
        if j + 1 < n {
            assert(s[j + 1] == head[j + 1]);
        }
    }
    assert(double_colon(s, 0) == Some(n));
    assert(s.take(n) =~= head);
    assert(s.skip(n + 2) =~= tail);
    if head.len() == 0 {
        assert(before =~= Seq::<u16>::empty());
    }
    if tail.len() == 0 {
        assert(behind =~= Seq::<u16>::empty());
        assert(hex_groups(Seq::empty()) == Some(behind));
    }
}

proof fn lemma_hex_chars(s: Text, i: int)
    requires
        hex_value(s) is Some,
        0 <= i < s.len(),
    ensures
        hex_digit(s[i]) is Some,
    decreases s.len(),
{
    if i < s.len() - 1 {
        lemma_hex_chars(s.drop_last(), i);
        assert(s.drop_last()[i] == s[i]);
    }
}

/// Whether a character can stand in an address.
spec fn is_address_char(c: char) -> bool {
    hex_digit(c) is Some || c == ':' || c == '.'
}

proof fn lemma_groups_chars(s: Text, i: int)
    requires
        mixed_groups(split(s, ':')) is Some || hex_groups(split(s, ':')) is Some,
        0 <= i < s.len(),
    ensures
        is_address_char(s[i]),
{
    let parts = split(s, ':');
    lemma_split_chars(s, ':', i);
    if s[i] != ':' {
        let k = choose|k: int| 0 <= k < parts.len() && (#[trigger] parts[k]).contains(s[i]);
        let p = choose|p: int| 0 <= p < parts[k].len() && parts[k][p] == s[i];
        if hex_groups(parts) is Some {
            groups_are_read_one_by_one(parts, hex_groups(parts)->0);
            lemma_hex_chars(parts[k], p);
        } else if k == parts.len() - 1 {
            lemma_ipv4_chars(parts[k], p);
        } else {
            let init = parts.drop_last();
            groups_are_read_one_by_one(init, hex_groups(init)->0);
            assert(init[k] == parts[k]);
            lemma_hex_chars(parts[k], p);
        }
    }
}

proof fn lemma_ipv6_chars(h: Text, i: int)
    requires
        ipv6_literal(h) is Some,
        0 <= i < h.len(),
    ensures
        is_address_char(h[i]),
{
    lemma_double_colon(h, 0);
    match double_colon(h, 0) {
        None => {
            lemma_groups_chars(h, i);
        },
        Some(k) => {
            if i < k {
                assert(h.take(k)[i] == h[i]);
                lemma_groups_chars(h.take(k), i);
            } else if i >= k + 2 {
                assert(h.skip(k + 2)[i - (k + 2)] == h[i]);
                lemma_groups_chars(h.skip(k + 2), i - (k + 2));
            }
        },
    }
}

/// No text is a literal of both kinds.
pub proof fn literals_are_of_one_kind(h: Text)
    ensures
        !(ipv4_literal(h) is Some && ipv6_literal(h) is Some),
        ip_literal(h) == match (ipv4_literal(h), ipv6_literal(h)) {
            (Some(v), _) => Some(Ip::V4(v)),
            (None, Some(v)) => Some(Ip::V6(v)),
            (None, None) => None,
        },
{
    if ipv4_literal(h) is Some {
        assert(!h.contains(':')) by {
            if h.contains(':') {
                let i = choose|i: int| 0 <= i < h.len() && h[i] == ':';
                lemma_ipv4_chars(h, i);
            }
        }
        lemma_double_colon(h, 0);
        separators_part_texts(h, h, ':');
        assert(double_colon(h, 0) is None) by {
            if double_colon(h, 0) is Some {
                assert(h.contains(h[double_colon(h, 0)->0]));
            }
        }
        let parts = split(h, ':');
        assert(parts.last() == h);
        assert(parts.drop_last() =~= Seq::<Text>::empty());
    }
}

/// The endpoint of an address and a port under a protocol.
spec fn denoted(proto: Text, ip: Ip, port: u16) -> Endpoint {
    if proto == "tcp"@ {
        Endpoint::Tcp(ip, port)
    } else {
        Endpoint::Udp(ip, port)
    }
}

proof fn lemma_inet_endpoint(proto: Text, rest: Text, default: Text, ip: Ip, port: u16)
    requires
        proto == "tcp"@ || proto == "udp"@,
        rest.len() > 0,
        !is_space(rest.last()),
        inet_address(rest) == Ok::<(Ip, u16), Text>((ip, port)),
    ensures
        endpoint_of(proto + ":"@ + rest, default) == Ok::<Endpoint, Text>(
            denoted(proto, ip, port),
        ),
{
    reveal_strlit("tcp");
    reveal_strlit("udp");
    assert("tcp"@[0] == 't' && "udp"@[0] == 'u');
    lemma_prefixed(proto, rest, default);
}

/// The port stands behind the last colon, and all that stands before it is the
/// host, further colons and all; where nothing does, any IPv4 address is meant.
pub proof fn ports_stand_behind_the_last_colon(host: Text, port: Text)
    requires
        !port.contains(':'),
        port.len() > 0 ==> !is_space(port.last()),
    ensures
        (host.len() > 0 && host[0] != '[' && !is_space(host[0])) ==> host_and_port(
            host + ":"@ + port,
        ) == Ok::<(Text, Text), Text>((host, port)),
        host_and_port(":"@ + port) == Ok::<(Text, Text), Text>(("0.0.0.0"@, port)),
        !is_space((host + ":"@ + port).last()),
{
    reveal_strlit(":");
    lemma_last_colon(host, port);
    let none = Seq::<char>::empty();
    lemma_last_colon(none, port);
    assert(none + ":"@ + port =~= ":"@ + port);
}

proof fn lemma_last_colon(host: Text, port: Text)
    requires
        !port.contains(':'),
        port.len() > 0 ==> !is_space(port.last()),
    ensures
        !is_space((host + ":"@ + port).last()),
        (host.len() == 0 || (host[0] != '[' && !is_space(host[0]))) ==> host_and_port(
            host + ":"@ + port,
        ) == Ok::<(Text, Text), Text>(
            (
                if host.len() == 0 {
                    "0.0.0.0"@
                } else {
                    host
                },
                port,
            ),
        ),
{
    reveal_strlit(":");
    let s = host + ":"@ + port;
    let n = host.len() as int;
    assert(s[n] == ':');
    assert(port.len() == 0 ==> s.last() == ':');
    assert(port.len() > 0 ==> s.last() == port.last());
    if host.len() == 0 || (host[0] != '[' && !is_space(host[0])) {
        assert(host.len() > 0 ==> s[0] == host[0]);
        lemma_trimmed_line(s);
        s.index_of_last_ensures(':');
        let i = s.index_of_last(':')->0;
        assert(s.contains(':'));
        if i > n {
            assert(port[i - n - 1] == s[i]);
            assert(port.contains(':'));
        }
        assert(i == n);
        assert(s.take(n) =~= host);
        assert(s.skip(n + 1) =~= port);
    }
}

proof fn lemma_bracketed(host: Text, port: u16)
    requires
        !host.contains(']'),
    ensures
        host_and_port("["@ + host + "]:"@ + decimal(port as nat)) == Ok::<(Text, Text), Text>(
            (host, decimal(port as nat)),
        ),
        !is_space(("["@ + host + "]:"@ + decimal(port as nat)).last()),
{
    reveal_strlit("[");
    reveal_strlit("]:");
    let d = decimal(port as nat);
    let s = "["@ + host + "]:"@ + d;
    lemma_decimal_digits(port as nat);
    assert(is_digit(d.last()));
    assert(s.last() == d.last());
    assert(s[0] == '[');
    lemma_trimmed_line(s);
    let inner = s.skip(1);
    let n = host.len() as int;
    assert(inner =~= host + "]:"@ + d);
    inner.index_of_first_ensures(']');
    assert(inner[n] == ']');
    assert(inner.contains(']'));
    let i = inner.index_of_first(']')->0;
    if i < n {
        assert(host[i] == inner[i]);
        assert(host.contains(']'));
    }
    assert(i == n);
    assert(inner.take(n) =~= host);
    assert(inner.skip(n + 1) =~= seq![':'] + d);
    assert((seq![':'] + d).skip(1) =~= d);
}

/// A spec denotes exactly what it names: the address that its host writes, an
/// IPv4 address as it is or an IPv6 address in brackets, and the port in decimal
/// behind it, under the protocol of its prefix.
pub proof fn specs_denote_their_address(proto: Text, host: Text, port: u16, default: Text)
    requires
        proto == "tcp"@ || proto == "udp"@,
        port >= 1,
    ensures
        ipv4_literal(host) matches Some(v) ==> endpoint_of(
            proto + ":"@ + (host + ":"@ + decimal(port as nat)),
            default,
        ) == Ok::<Endpoint, Text>(
            if proto == "tcp"@ {
                Endpoint::Tcp(Ip::V4(v), port)
            } else {
                Endpoint::Udp(Ip::V4(v), port)
            },
        ),
        ipv6_literal(host) matches Some(v) ==> endpoint_of(
            proto + ":"@ + ("["@ + host + "]:"@ + decimal(port as nat)),
            default,
        ) == Ok::<Endpoint, Text>(
            if proto == "tcp"@ {
                Endpoint::Tcp(Ip::V6(v), port)
            } else {
                Endpoint::Udp(Ip::V6(v), port)
            },
        ),
{
    ports_are_decimal_numbers(port as nat, host);
    literals_are_of_one_kind(host);
    if ipv4_literal(host) is Some {
        lemma_ipv4_nonempty(host);
        lemma_ipv4_chars(host, 0);
        lemma_decimal_digits(port as nat);
        lemma_no_mark(port as nat, ':');
        assert(is_digit(decimal(port as nat).last()));
        ports_stand_behind_the_last_colon(host, decimal(port as nat));
        let rest = host + ":"@ + decimal(port as nat);
        lemma_inet_endpoint(proto, rest, default, Ip::V4(ipv4_literal(host)->0), port);
    }
    if ipv6_literal(host) is Some {
        assert(!host.contains(']')) by {
            if host.contains(']') {
                let i = choose|i: int| 0 <= i < host.len() && host[i] == ']';
                lemma_ipv6_chars(host, i);
            }
        }
        lemma_bracketed(host, port);
        let rest = "["@ + host + "]:"@ + decimal(port as nat);
        reveal_strlit("[");
        assert(rest.len() > 0);
        lemma_inet_endpoint(proto, rest, default, Ip::V6(ipv6_literal(host)->0), port);
    }
}

/// A spec without a host means any IPv4 address, at the port that it names.
pub proof fn bare_ports_mean_any_address(proto: Text, port: u16, default: Text)
    requires
        proto == "tcp"@ || proto == "udp"@,
        port >= 1,
    ensures
        endpoint_of(proto + ":"@ + decimal(port as nat), default) == Ok::<Endpoint, Text>(
            if proto == "tcp"@ {
                Endpoint::Tcp(Ip::V4(seq![0u8, 0u8, 0u8, 0u8]), port)
            } else {
                Endpoint::Udp(Ip::V4(seq![0u8, 0u8, 0u8, 0u8]), port)
            },
        ),
        endpoint_of(decimal(port as nat), proto) == endpoint_of(
            proto + ":"@ + decimal(port as nat),
            default,
        ),
{
    let d = decimal(port as nat);
    lemma_decimal_digits(port as nat);
    decimal_reads_back(port as nat);
    lemma_no_mark(port as nat, ':');
    assert(is_digit(d[0]) && is_digit(d.last()));
    d.index_of_last_ensures(':');
    d.index_of_first_ensures(':');
    lemma_any_address();
    ports_are_decimal_numbers(port as nat, d);
    let any = Ip::V4(seq![0u8, 0u8, 0u8, 0u8]);
    assert(inet_address(d) == Ok::<(Ip, u16), Text>((any, port)));
    lemma_inet_endpoint(proto, d, default, any, port);
    reveal_strlit("tcp");
    reveal_strlit("udp");
    assert("tcp"@[0] == 't' && "udp"@[0] == 'u');
}

proof fn lemma_any_address()
    ensures
        host_address("0.0.0.0"@) == Ok::<Ip, Text>(Ip::V4(seq![0u8, 0u8, 0u8, 0u8])),
{
    reveal_strlit(".");
    reveal_strlit("0.0.0.0");
    ipv4_addresses_read_back(0, 0, 0, 0);
    decimals_begin_with_no_zero(0);
    let z = decimal(0nat);
    assert(z + "."@ + z + "."@ + z + "."@ + z =~= "0.0.0.0"@);
}

/// Without a prefix, the default protocol counts: the spec of an IPv4 address
/// and a port denotes what it denotes behind that prefix.
pub proof fn defaults_fill_in_for_prefixes(proto: Text, host: Text, port: u16, other: Text)
    requires
        proto == "tcp"@ || proto == "udp"@,
        ipv4_literal(host) is Some,
        port >= 1,
    ensures
        endpoint_of(host + ":"@ + decimal(port as nat), proto) == endpoint_of(
            proto + ":"@ + (host + ":"@ + decimal(port as nat)),
            other,
        ),
{
    specs_denote_their_address(proto, host, port, other);
    ports_are_decimal_numbers(port as nat, host);
    literals_are_of_one_kind(host);
    lemma_ipv4_nonempty(host);
    lemma_ipv4_chars(host, 0);
    lemma_decimal_digits(port as nat);
    lemma_no_mark(port as nat, ':');
    assert(is_digit(decimal(port as nat).last()));
    ports_stand_behind_the_last_colon(host, decimal(port as nat));
    reveal_strlit(":");
    reveal_strlit("tcp");
    reveal_strlit("udp");
    reveal_strlit("unix");
    let s = host + ":"@ + decimal(port as nat);
    assert(s[0] == host[0]);
    lemma_trimmed_line(s);
    s.index_of_first_ensures(':');
    let n = host.len() as int;
    assert(s[n] == ':');
    assert(s.contains(':'));
    let i = s.index_of_first(':')->0;
    assert(0 < i) by {
        if i == 0 {
            assert(s[0] == host[0]);
        }
    }
    assert(s.take(i)[0] == host[0]);
    assert("tcp"@[0] == 't' && "udp"@[0] == 'u' && "unix"@[0] == 'u');
    assert(protocol_of(s, proto) == (proto, s));
}

/// A host that is no literal is refused, but for `*` and none at all, which
/// mean any IPv4 address; the error gives the host.
pub proof fn hosts_are_literals(host: Text)
    ensures
        ip_literal(host) matches Some(ip) ==> host_address(host) == Ok::<Ip, Text>(ip),
        ip_literal(host) is None && (host == seq!['*'] || host.len() == 0) ==> host_address(host)
            == Ok::<Ip, Text>(Ip::V4(seq![0u8, 0u8, 0u8, 0u8])),
        ip_literal(host) is None && host != seq!['*'] && host.len() > 0 ==> {
            let head = "'"@ + host + "' is not an IP literal"@;
            &&& host_address(host) matches Err(m) && m.len() > head.len() && m.take(
                head.len() as int,
            ) == head
        },
{
    reveal_strlit("' is not an IP literal");
    reveal_strlit(
        "' is not an IP literal; use an IP address (or 0.0.0.0 / :: / *) — name resolution is not available at boot",
    );
    if host_address(host) is Err {
        let head = "'"@ + host + "' is not an IP literal"@;
        assert(host_address(host)->Err_0.take(head.len() as int) =~= head);
    }
    reveal_strlit("*");
    reveal_strlit("");
    assert("*"@ =~= seq!['*']);
    assert(""@.len() == 0);
    if host.len() == 0 {
        assert(host =~= ""@);
    }
}

/// Nothing of an endpoint is lost in what is said of it: its address, its port
/// and its path.
pub proof fn listen_specs_are_said_in_full(a: ListenSpec, b: ListenSpec)
    requires
        a@ == b@,
    ensures
        match (a, b) {
            (ListenSpec::Tcp { addr: x }, ListenSpec::Tcp { addr: y }) => x.port == y.port
                && same_address(x.ip, y.ip),
            (ListenSpec::Udp { addr: x }, ListenSpec::Udp { addr: y }) => x.port == y.port
                && same_address(x.ip, y.ip),
            (ListenSpec::Unix { path: x }, ListenSpec::Unix { path: y }) => x@ == y@,
            _ => false,
        },
{
}

/// Whether two addresses agree in every octet or group.
pub open spec fn same_address(a: IpAddr, b: IpAddr) -> bool {
    match (a, b) {
        (IpAddr::V4(x), IpAddr::V4(y)) => x.octets@ == y.octets@,
        (IpAddr::V6(x), IpAddr::V6(y)) => x.segments@ == y.segments@,
        _ => false,
    }
}

/// A spec whose first word is no known prefix is read whole, under the default
/// protocol; under one that is not supported it is refused, and the error names
/// the protocol.
pub proof fn unknown_prefixes_are_no_prefixes(word: Text, rest: Text, default: Text)
    requires
        !word.contains(':'),
        word != "tcp"@,
        word != "udp"@,
        word != "unix"@,
    ensures
        protocol_of(word + seq![':'] + rest, default) == (default, word + seq![':'] + rest),
        protocol_of(word, default) == (default, word),
        (default != "tcp"@ && default != "udp"@ && default != "unix"@ && word.len() > 0 && !is_space(
            word[0],
        ) && !is_space(word.last())) ==> endpoint_of(word, default) == Err::<Endpoint, Text>(
            "unsupported socket type '"@ + default + "'"@,
        ),
{
    let s = word + seq![':'] + rest;
    let n = word.len() as int;
    s.index_of_first_ensures(':');
    word.index_of_first_ensures(':');
    assert(s[n] == ':');
    assert(s.contains(':'));
    let i = s.index_of_first(':')->0;
    if i < n {
        assert(word[i] == s[i]);
        assert(word.contains(':'));
    }
    assert(i == n);
    assert(s.take(n) =~= word);
    if word.len() > 0 && !is_space(word[0]) && !is_space(word.last()) {
        lemma_trimmed_line(word);
    }
}

/// A bracketed host without a colon and a port behind it has no port.
pub proof fn brackets_need_a_port(host: Text, tail: Text)
    requires
        !host.contains(']'),
        tail.len() == 0 || tail[0] != ':',
        tail.len() > 0 ==> !is_space(tail.last()),
    ensures
        host_and_port(seq!['['] + host + seq![']'] + tail) == Ok::<(Text, Text), Text>(
            (host, Seq::empty()),
        ),
        inet_address(seq!['['] + host + seq![']'] + tail) is Err,
{
    reveal_strlit("");
    let s = seq!['['] + host + seq![']'] + tail;
    assert(s[0] == '[');
    assert(tail.len() == 0 ==> s.last() == ']');
    assert(tail.len() > 0 ==> s.last() == tail.last());
    lemma_trimmed_line(s);
    let inner = s.skip(1);
    let n = host.len() as int;
    assert(inner =~= host + seq![']'] + tail);
    inner.index_of_first_ensures(']');
    assert(inner[n] == ']');
    assert(inner.contains(']'));
    let i = inner.index_of_first(']')->0;
    if i < n {
        assert(host[i] == inner[i]);
        assert(host.contains(']'));
    }
    assert(i == n);
    assert(inner.take(n) =~= host);
    assert(inner.skip(n + 1) =~= tail);
    assert(""@ =~= Seq::<char>::empty());
    assert(unsigned_value(""@) is None);
}

/// A bracket must be closed, and a spec must not be empty.
pub proof fn incomplete_specs_are_refused(s: Text, default: Text)
    requires
        s.len() > 0,
        s[0] == '[',
        !s.contains(']'),
        !is_space(s.last()),
    ensures
        host_and_port(s) == Err::<(Text, Text), Text>(
            "unterminated '[' in listen spec '"@ + s + "'"@,
        ),
        endpoint_of(Seq::empty(), default) == Err::<Endpoint, Text>("empty listen spec"@),
        endpoint_of(seq![' '], default) == Err::<Endpoint, Text>("empty listen spec"@),
{
    reveal_with_fuel(trim_front, 2);
    lemma_trimmed_line(s);
    let inner = s.skip(1);
    inner.index_of_first_ensures(']');
    if inner.contains(']') {
        let i = choose|i: int| 0 <= i < inner.len() && inner[i] == ']';
        assert(s[i + 1] == ']');
    }
    assert(seq![' '].skip(1) =~= Seq::<char>::empty());
}

/// White space around a spec says nothing.
pub proof fn white_space_around_specs_says_nothing(spec: Text, default: Text)
    ensures
        endpoint_of(trimmed(spec), default) == endpoint_of(spec, default),
{
    trimming_removes_only_space(spec);
    let t = trimmed(spec);
    if t.len() > 0 {
        lemma_trimmed_line(t);
    } else {
        assert(t =~= Seq::<char>::empty());
    }
}

/// Where what stands before or behind `::` writes no groups, there is no
/// address.
pub proof fn bad_groups_are_no_address(head: Text, tail: Text)
    requires
        head.len() == 0 || head.last() != ':',
        forall|j: int|
            0 <= j && j + 1 < head.len() ==> !(#[trigger] head[j] == ':' && head[j + 1] == ':'),
        (head.len() > 0 && hex_groups(split(head, ':')) is None) || (tail.len() > 0 && mixed_groups(
            split(tail, ':'),
        ) is None),
    ensures
        ipv6_literal(head + "::"@ + tail) is None,
{
    reveal_strlit("::");
    let s = head + "::"@ + tail;
    let n = head.len() as int;
    assert(s[n] == ':' && s[n + 1] == ':');
    lemma_double_colon(s, 0);
    assert forall|j: int| 0 <= j < n implies !(#[trigger] s[j] == ':' && s[j + 1] == ':') by {
        assert(s[j] == head[j]);
        if j + 1 < n {
            assert(s[j + 1] == head[j + 1]);
        }
    }
    assert(double_colon(s, 0) == Some(n));
    assert(s.take(n) =~= head);
    assert(s.skip(n + 2) =~= tail);
}

} // verus!
