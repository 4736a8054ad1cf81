//! Network addresses as plain values, with their textual form.

use vstd::prelude::*;

use crate::text;

verus! {

/// An IPv4 address, by its four octets.
#[derive(Clone, Copy, Debug, PartialEq, Eq, Structural)]
pub struct Ipv4Addr {
    pub a: u8,
    pub b: u8,
    pub c: u8,
    pub d: u8,
}

/// An IPv6 address, by its eight segments.
#[derive(Clone, Copy, Debug, PartialEq, Eq, Structural)]
pub struct Ipv6Addr {
    pub s0: u16,
    pub s1: u16,
    pub s2: u16,
    pub s3: u16,
    pub s4: u16,
    pub s5: u16,
    pub s6: u16,
    pub s7: u16,
}

/// An address of either family.
#[derive(Clone, Copy, Debug, PartialEq, Eq, Structural)]
pub enum IpAddr {
    V4(Ipv4Addr),
    V6(Ipv6Addr),
}

/// An IPv4 address and a port.
#[derive(Clone, Copy, Debug, PartialEq, Eq, Structural)]
pub struct SocketAddrV4 {
    pub ip: Ipv4Addr,
    pub port: u16,
}

/// An IPv6 address and a port, with the flow label and scope that a socket adds.
#[derive(Clone, Copy, Debug, PartialEq, Eq, Structural)]
pub struct SocketAddrV6 {
    pub ip: Ipv6Addr,
    pub port: u16,
    pub flowinfo: u32,
    pub scope_id: u32,
}

/// A peer's address: an IP address of either family and a port.
#[derive(Clone, Copy, Debug, PartialEq, Eq, Structural)]
pub enum SocketAddr {
    V4(SocketAddrV4),
    V6(SocketAddrV6),
}

impl Ipv4Addr {
    /// 0.0.0.0
    pub open spec fn unspecified_spec() -> Ipv4Addr {
        Ipv4Addr { a: 0, b: 0, c: 0, d: 0 }
    }

    /// 0.0.0.0
    pub fn unspecified() -> (r: Ipv4Addr)
        ensures
            r == Self::unspecified_spec(),
    {
        Ipv4Addr { a: 0, b: 0, c: 0, d: 0 }
    }

    /// 127.0.0.0/8
    pub fn is_loopback(&self) -> (r: bool)
        ensures
            r == (self.a == 127),
    {
        self.a == 127
    }

    /// 169.254.0.0/16
    pub fn is_link_local(&self) -> (r: bool)
        ensures
            r == (self.a == 169 && self.b == 254),
    {
        self.a == 169 && self.b == 254
    }

    /// 255.255.255.255
    pub fn is_broadcast(&self) -> (r: bool)
        ensures
            r == (self.a == 255 && self.b == 255 && self.c == 255 && self.d == 255),
    {
        self.a == 255 && self.b == 255 && self.c == 255 && self.d == 255
    }

    /// Dotted decimal.
    pub open spec fn text_spec(self) -> Seq<char> {
        text::decimal(self.a as nat) + seq!['.'] + text::decimal(self.b as nat) + seq!['.'] + text::decimal(
            self.c as nat,
        ) + seq!['.'] + text::decimal(self.d as nat)
    }

    /// Writes the address in dotted decimal.
    pub fn text(&self) -> (r: String)
        ensures
            r@ == self.text_spec(),
    {
        let mut r = text::number_text(self.a as u64);
        r.push('.');
        r.append(text::number_text(self.b as u64).as_str());
        r.push('.');
        r.append(text::number_text(self.c as u64).as_str());
        r.push('.');
        r.append(text::number_text(self.d as u64).as_str());
        assert(r@ =~= self.text_spec());
        r
    }
}

/// How many zero segments stand in a row from segment `i` on.
pub open spec fn zero_run(s: Seq<u16>, i: int) -> nat
    decreases s.len() - i,
{
    if 0 <= i < s.len() && s[i] == 0 {
        1 + zero_run(s, i + 1)
    } else {
        0
    }
}

/// The longest row of zero segments that starts at or after segment `i`, by its
/// start and length; of rows of equal length, the first.
pub open spec fn longest_zero_run(s: Seq<u16>, i: int) -> (int, nat)
    decreases s.len() - i,
{
    if i >= s.len() || i < 0 {
        (s.len() as int, 0)
    } else {
        let rest = longest_zero_run(s, i + 1);
        let here = zero_run(s, i);
        if here > 0 && here >= rest.1 {
            (i, here)
        } else {
            rest
        }
    }
}

/// Segments in hexadecimal, with colons between them.
pub open spec fn groups(s: Seq<u16>) -> Seq<char>
    decreases s.len(),
{
    if s.len() == 0 {
        Seq::empty()
    } else if s.len() == 1 {
        text::hexadecimal(s[0] as nat)
    } else {
        groups(s.drop_last()) + seq![':'] + text::hexadecimal(s.last() as nat)
    }
}

proof fn lemma_longest_zero_run_bounds(s: Seq<u16>, i: int)
    requires
        0 <= i <= s.len(),
    ensures
        i <= longest_zero_run(s, i).0,
        longest_zero_run(s, i).0 + longest_zero_run(s, i).1 <= s.len(),
    decreases s.len() - i,
{
    lemma_zero_run_bound(s, i);
    if i < s.len() {
        lemma_longest_zero_run_bounds(s, i + 1);
    }
}

proof fn lemma_zero_run_bound(s: Seq<u16>, i: int)
    requires
        0 <= i <= s.len(),
    ensures
        i + zero_run(s, i) <= s.len(),
    decreases s.len() - i,
{
    if i < s.len() && s[i] == 0 {
        lemma_zero_run_bound(s, i + 1);
    }
}

fn push_groups(r: &mut String, s: &Vec<u16>, from: usize, to: usize)
    requires
        from <= to <= s@.len(),
    ensures
        final(r)@ == old(r)@ + groups(s@.subrange(from as int, to as int)),
{
    let ghost before = r@;
    let mut i: usize = from;
    assert(r@ =~= before + groups(s@.subrange(from as int, from as int)));
    while i < to
        invariant
            from <= i <= to <= s@.len(),
            r@ == before + groups(s@.subrange(from as int, i as int)),
        decreases to - i,
    {
        let ghost done = s@.subrange(from as int, i as int);
        let ghost more = s@.subrange(from as int, i + 1);
        assert(more.drop_last() =~= done);
        if i > from {
            r.push(':');
        }
        r.append(text::hex_text(s[i] as u64).as_str());
        assert(r@ =~= before + groups(more));
        i += 1;
    }
}

impl Ipv6Addr {
    /// The segments as a sequence.
    pub open spec fn segments_spec(self) -> Seq<u16> {
        seq![self.s0, self.s1, self.s2, self.s3, self.s4, self.s5, self.s6, self.s7]
    }

    fn segments(&self) -> (r: Vec<u16>)
        ensures
            r@ == self.segments_spec(),
    {
        let mut r: Vec<u16> = Vec::new();
        r.push(self.s0);
        r.push(self.s1);
        r.push(self.s2);
        r.push(self.s3);
        r.push(self.s4);
        r.push(self.s5);
        r.push(self.s6);
        r.push(self.s7);
        assert(r@ =~= self.segments_spec());
        r
    }

    /// ::
    pub open spec fn unspecified_spec() -> Ipv6Addr {
        Ipv6Addr { s0: 0, s1: 0, s2: 0, s3: 0, s4: 0, s5: 0, s6: 0, s7: 0 }
    }

    /// ::
    pub fn unspecified() -> (r: Ipv6Addr)
        ensures
            r == Self::unspecified_spec(),
    {
        Ipv6Addr { s0: 0, s1: 0, s2: 0, s3: 0, s4: 0, s5: 0, s6: 0, s7: 0 }
    }

    /// ::
    pub fn is_unspecified(&self) -> (r: bool)
        ensures
            r == (*self == Self::unspecified_spec()),
    {
        *self == Self::unspecified()
    }

    /// ::1
    pub open spec fn loopback_spec() -> Ipv6Addr {
        Ipv6Addr { s0: 0, s1: 0, s2: 0, s3: 0, s4: 0, s5: 0, s6: 0, s7: 1 }
    }

    /// ::1
    pub fn is_loopback(&self) -> (r: bool)
        ensures
            r == (*self == Self::loopback_spec()),
    {
        *self == (Ipv6Addr { s0: 0, s1: 0, s2: 0, s3: 0, s4: 0, s5: 0, s6: 0, s7: 1 })
    }

    /// ff00::/8
    pub fn is_multicast(&self) -> (r: bool)
        ensures
            r == (self.s0 >= 0xff00),
    {
        self.s0 >= 0xff00
    }

    /// fe80::/10
    pub fn is_unicast_link_local(&self) -> (r: bool)
        ensures
            r == (0xfe80 <= self.s0 <= 0xfebf),
    {
        0xfe80 <= self.s0 && self.s0 <= 0xfebf
    }

    /// fc00::/7
    pub fn is_unique_local(&self) -> (r: bool)
        ensures
            r == (0xfc00 <= self.s0 <= 0xfdff),
    {
        0xfc00 <= self.s0 && self.s0 <= 0xfdff
    }

    /// ::ffff:0:0/96, the block that carries IPv4 addresses.
    pub open spec fn is_v4_mapped(self) -> bool {
        &&& self.s0 == 0
        &&& self.s1 == 0
        &&& self.s2 == 0
        &&& self.s3 == 0
        &&& self.s4 == 0
        &&& self.s5 == 0xffff
    }

    /// The IPv4 address in the last 32 bits.
    pub open spec fn low_v4(self) -> Ipv4Addr {
        Ipv4Addr {
            a: (self.s6 / 256) as u8,
            b: (self.s6 % 256) as u8,
            c: (self.s7 / 256) as u8,
            d: (self.s7 % 256) as u8,
        }
    }

    /// The canonical text: hexadecimal groups, the longest row of at least two zero
    /// groups shortened to `::`, and dotted decimal for mapped IPv4 addresses.
    pub open spec fn text_spec(self) -> Seq<char> {
        let s = self.segments_spec();
        let (start, len) = longest_zero_run(s, 0);
        if self.is_v4_mapped() {
            seq![':', ':', 'f', 'f', 'f', 'f', ':'] + self.low_v4().text_spec()
        } else if len > 1 {
            groups(s.subrange(0, start)) + seq![':', ':'] + groups(
                s.subrange(start + len, s.len() as int),
            )
        } else {
            groups(s)
        }
    }

    /// Writes the address in its canonical text.
    pub fn text(&self) -> (r: String)
        ensures
            r@ == self.text_spec(),
    {
        let mut r = String::new();
        if self.s0 == 0 && self.s1 == 0 && self.s2 == 0 && self.s3 == 0 && self.s4 == 0 && self.s5
            == 0xffff {
            r.push(':');
            r.push(':');
            r.push('f');
            r.push('f');
            r.push('f');
            r.push('f');
            r.push(':');
            let v4 = Ipv4Addr {
                a: (self.s6 / 256) as u8,
                b: (self.s6 % 256) as u8,
                c: (self.s7 / 256) as u8,
                d: (self.s7 % 256) as u8,
            };
            r.append(v4.text().as_str());
            assert(r@ =~= self.text_spec());
            return r;
        }
        let s = self.segments();
        let mut start: usize = 8;
        let mut len: usize = 0;
        let mut run: usize = 0;
        let mut i: usize = 8;
        while i > 0
            invariant
                i <= 8,
                s@.len() == 8,
                run == zero_run(s@, i as int),
                run <= 8 - i,
                (start as int, len as nat) == longest_zero_run(s@, i as int),
            decreases i,
        {
            i -= 1;
            if s[i] == 0 {
                run += 1;
            } else {
                run = 0;
            }
            if run > 0 && run >= len {
                start = i;
                len = run;
            }
        }
        proof {
            lemma_longest_zero_run_bounds(s@, 0);
        }
        if len > 1 {
            push_groups(&mut r, &s, 0, start);
            r.push(':');
            r.push(':');
            push_groups(&mut r, &s, start + len, 8);
            assert(r@ =~= self.text_spec());
        } else {
            push_groups(&mut r, &s, 0, 8);
            assert(s@.subrange(0, 8) =~= s@);
            assert(r@ =~= self.text_spec());
        }
        r
    }
}

impl IpAddr {
    /// The address as text.
    pub open spec fn text_spec(self) -> Seq<char> {
        match self {
            IpAddr::V4(ip) => ip.text_spec(),
            IpAddr::V6(ip) => ip.text_spec(),
        }
    }

    /// Writes the address as text.
    pub fn text(&self) -> (r: String)
        ensures
            r@ == self.text_spec(),
    {
        match self {
            IpAddr::V4(ip) => ip.text(),
            IpAddr::V6(ip) => ip.text(),
        }
    }
}

impl SocketAddr {
    /// An address and port of the address's family; flow label and scope are zero.
    pub open spec fn new_spec(ip: IpAddr, port: u16) -> SocketAddr {
        match ip {
            IpAddr::V4(ip) => SocketAddr::V4(SocketAddrV4 { ip, port }),
            IpAddr::V6(ip) => SocketAddr::V6(
                SocketAddrV6 { ip, port, flowinfo: 0, scope_id: 0 },
            ),
        }
    }

    /// Joins an address and a port.
    pub fn new(ip: IpAddr, port: u16) -> (r: SocketAddr)
        ensures
            r == Self::new_spec(ip, port),
    {
        match ip {
            IpAddr::V4(ip) => SocketAddr::V4(SocketAddrV4 { ip, port }),
            IpAddr::V6(ip) => SocketAddr::V6(
                SocketAddrV6 { ip, port, flowinfo: 0, scope_id: 0 },
            ),
        }
    }

    /// The IP address.
    pub open spec fn ip_spec(self) -> IpAddr {
        match self {
            SocketAddr::V4(v4) => IpAddr::V4(v4.ip),
            SocketAddr::V6(v6) => IpAddr::V6(v6.ip),
        }
    }

    /// The IP address.
    pub fn ip(&self) -> (r: IpAddr)
        ensures
            r == self.ip_spec(),
    {
        match self {
            SocketAddr::V4(v4) => IpAddr::V4(v4.ip),
            SocketAddr::V6(v6) => IpAddr::V6(v6.ip),
        }
    }

    /// The port.
    pub open spec fn port_spec(self) -> u16 {
        match self {
            SocketAddr::V4(v4) => v4.port,
            SocketAddr::V6(v6) => v6.port,
        }
    }

    /// The port.
    pub fn port(&self) -> (r: u16)
        ensures
            r == self.port_spec(),
    {
        match self {
            SocketAddr::V4(v4) => v4.port,
            SocketAddr::V6(v6) => v6.port,
        }
    }

    /// Whether this is an IPv4 address.
    pub open spec fn is_ipv4_spec(self) -> bool {
        self is V4
    }

    /// Whether this is an IPv4 address.
    pub fn is_ipv4(&self) -> (r: bool)
        ensures
            r == self.is_ipv4_spec(),
    {
        matches!(self, SocketAddr::V4(_))
    }

    /// Whether this is an IPv6 address.
    pub fn is_ipv6(&self) -> (r: bool)
        ensures
            r == (*self is V6),
    {
        matches!(self, SocketAddr::V6(_))
    }

    /// `a.b.c.d:port`, or `[v6]:port` with `%scope` when a scope is set.
    pub open spec fn text_spec(self) -> Seq<char> {
        match self {
            SocketAddr::V4(v4) => v4.ip.text_spec() + seq![':'] + text::decimal(v4.port as nat),
            SocketAddr::V6(v6) => {
                let scope = if v6.scope_id == 0 {
                    Seq::<char>::empty()
                } else {
                    seq!['%'] + text::decimal(v6.scope_id as nat)
                };
                seq!['['] + v6.ip.text_spec() + scope + seq![']', ':'] + text::decimal(v6.port as nat)
            },
        }
    }

    /// Writes the address and port as text.
    pub fn text(&self) -> (r: String)
        ensures
            r@ == self.text_spec(),
    {
        match self {
            SocketAddr::V4(v4) => {
                let mut r = v4.ip.text();
                r.push(':');
                r.append(text::number_text(v4.port as u64).as_str());
                assert(r@ =~= self.text_spec());
                r
            },
            SocketAddr::V6(v6) => {
                let mut r = String::new();
                r.push('[');
                r.append(v6.ip.text().as_str());
                if v6.scope_id != 0 {
                    r.push('%');
                    r.append(text::number_text(v6.scope_id as u64).as_str());
                }
                r.push(']');
                r.push(':');
                r.append(text::number_text(v6.port as u64).as_str());
                assert(r@ =~= self.text_spec());
                r
            },
        }
    }
}

// ---------------------------------------------------------------- laws

/// An IPv4 address is written by its octets in decimal, in their order, with dots between them.
pub proof fn law_ipv4_is_written_in_octets(a: u8, b: u8, c: u8, d: u8)
    ensures
        (Ipv4Addr { a, b, c, d }).text_spec() == text::decimal(a as nat) + seq!['.']
            + text::decimal(b as nat) + seq!['.'] + text::decimal(c as nat) + seq!['.']
            + text::decimal(d as nat),
{
}

/// A row of zero segments goes on as long as the segments are zero, and no further.
pub proof fn law_zero_rows_are_whole(s: Seq<u16>, i: int)
    requires
        0 <= i <= s.len(),
    ensures
        i + zero_run(s, i) <= s.len(),
        forall|k: int| i <= k < i + zero_run(s, i) ==> #[trigger] s[k] == 0,
        i + zero_run(s, i) < s.len() ==> s[i + zero_run(s, i)] != 0,
    decreases s.len() - i,
{
    if i < s.len() && s[i] == 0 {
        law_zero_rows_are_whole(s, i + 1);
    }
}

proof fn lemma_zero_run_reaches(s: Seq<u16>, i: int, n: int)
    requires
        0 <= i <= i + n <= s.len(),
        forall|k: int| i <= k < i + n ==> #[trigger] s[k] == 0,
    ensures
        zero_run(s, i) >= n,
    decreases n,
{
    if n > 0 {
        lemma_zero_run_reaches(s, i + 1, n - 1);
    }
}

proof fn lemma_longest_is_longest(s: Seq<u16>, i: int)
    requires
        0 <= i <= s.len(),
    ensures
        ({
            let (start, len) = longest_zero_run(s, i);
            &&& i <= start
            &&& start + len <= s.len()
            &&& forall|k: int| start <= k < start + len ==> #[trigger] s[k] == 0
            &&& forall|j: int| i <= j < s.len() ==> #[trigger] zero_run(s, j) <= len
            &&& len > 0 ==> forall|j: int| i <= j < start ==> #[trigger] zero_run(s, j) < len
            &&& len == 0 ==> start == s.len()
        }),
    decreases s.len() - i,
{
    if i < s.len() {
        lemma_longest_is_longest(s, i + 1);
        law_zero_rows_are_whole(s, i);
        let rest = longest_zero_run(s, i + 1);
        let here = zero_run(s, i);
        let (start, len) = longest_zero_run(s, i);
        assert forall|j: int| i <= j < s.len() implies #[trigger] zero_run(s, j) <= len by {
            if j > i {
                assert(zero_run(s, j) <= rest.1);
            }
        }
        if len > 0 {
            assert forall|j: int| i <= j < start implies #[trigger] zero_run(s, j) < len by {
                if j > i {
                    assert(zero_run(s, j) < rest.1);
                }
            }
        }
    }
}

/// The row that is shortened is one of zero segments; no row of zero segments is longer, and none
/// before it is as long.
pub proof fn law_longest_row_is_shortened(s: Seq<u16>, j: int, n: int)
    requires
        0 <= j <= j + n <= s.len(),
        n > 0,
        forall|k: int| j <= k < j + n ==> #[trigger] s[k] == 0,
    ensures
        ({
            let (start, len) = longest_zero_run(s, 0);
            &&& 0 <= start && start + len <= s.len()
            &&& forall|k: int| start <= k < start + len ==> #[trigger] s[k] == 0
            &&& n <= len
            &&& j < start ==> n < len
        }),
{
    lemma_longest_is_longest(s, 0);
    lemma_zero_run_reaches(s, j, n);
}

/// Segments are written in hexadecimal, in their order, with a colon between two of them.
pub proof fn law_segments_are_written_with_colons(s: Seq<u16>, x: u16)
    ensures
        groups(Seq::empty()) == Seq::<char>::empty(),
        groups(seq![x]) == text::hexadecimal(x as nat),
        s.len() > 0 ==> groups(s.push(x)) == groups(s) + seq![':'] + text::hexadecimal(x as nat),
{
    assert(s.push(x).drop_last() =~= s);
}

/// An IPv6 address is written in hexadecimal, a row of two or more zero segments that is the longest
/// and first of its length shortened; one that carries an IPv4 address ends with that address.
pub proof fn law_ipv6_is_written_in_segments(ip: Ipv6Addr)
    ensures
        ({
            let s = seq![ip.s0, ip.s1, ip.s2, ip.s3, ip.s4, ip.s5, ip.s6, ip.s7];
            let (start, len) = longest_zero_run(s, 0);
            let mapped = ip.s0 == 0 && ip.s1 == 0 && ip.s2 == 0 && ip.s3 == 0 && ip.s4 == 0
                && ip.s5 == 65535;
            &&& mapped ==> ip.text_spec() == seq![':', ':', 'f', 'f', 'f', 'f', ':'] + (Ipv4Addr {
                a: (ip.s6 / 256) as u8,
                b: (ip.s6 % 256) as u8,
                c: (ip.s7 / 256) as u8,
                d: (ip.s7 % 256) as u8,
            }).text_spec()
            &&& !mapped && len >= 2 ==> ip.text_spec() == groups(s.take(start)) + seq![':', ':']
                + groups(s.skip(start + len))
            &&& !mapped && len < 2 ==> ip.text_spec() == groups(s)
        }),
{
    let s = ip.segments_spec();
    lemma_longest_is_longest(s, 0);
    let (start, len) = longest_zero_run(s, 0);
    assert(s.take(start) =~= s.subrange(0, start));
    assert(s.skip(start + len) =~= s.subrange(start + len, s.len() as int));
}

/// A peer's address is written with its port behind a colon, an IPv6 address in brackets, with its
/// scope behind a percent sign where it has one.
pub proof fn law_port_is_written_last(
    a: Ipv4Addr,
    b: Ipv6Addr,
    port: u16,
    flowinfo: u32,
    scope_id: u32,
)
    ensures
        ({
            let four = SocketAddr::V4(SocketAddrV4 { ip: a, port });
            let six = SocketAddr::V6(SocketAddrV6 { ip: b, port, flowinfo, scope_id });
            &&& four.text_spec() == a.text_spec() + seq![':'] + text::decimal(port as nat)
            &&& scope_id == 0 ==> six.text_spec() == seq!['['] + b.text_spec() + seq![']', ':']
                + text::decimal(port as nat)
            &&& scope_id != 0 ==> six.text_spec() == seq!['['] + b.text_spec() + seq!['%']
                + text::decimal(scope_id as nat) + seq![']', ':'] + text::decimal(port as nat)
        }),
{
    let six = SocketAddr::V6(SocketAddrV6 { ip: b, port, flowinfo, scope_id });
    if scope_id == 0 {
        assert(six.text_spec() =~= seq!['['] + b.text_spec() + seq![']', ':'] + text::decimal(
            port as nat,
        ));
    } else {
        assert(six.text_spec() =~= seq!['['] + b.text_spec() + seq!['%'] + text::decimal(
            scope_id as nat,
        ) + seq![']', ':'] + text::decimal(port as nat));
    }
}

/// An address that is joined with a port gives both back, of its own family, with no flow label and
/// no scope.
pub proof fn law_joined_address_is_taken_apart(
    a: Ipv4Addr,
    b: Ipv6Addr,
    port: u16,
    flowinfo: u32,
    scope_id: u32,
)
    ensures
        SocketAddr::new_spec(IpAddr::V4(a), port) == SocketAddr::V4(SocketAddrV4 { ip: a, port }),
        SocketAddr::new_spec(IpAddr::V6(b), port) == SocketAddr::V6(
            SocketAddrV6 { ip: b, port, flowinfo: 0, scope_id: 0 },
        ),
        ({
            let four = SocketAddr::V4(SocketAddrV4 { ip: a, port });
            let six = SocketAddr::V6(SocketAddrV6 { ip: b, port, flowinfo, scope_id });
            &&& four.ip_spec() == IpAddr::V4(a) && six.ip_spec() == IpAddr::V6(b)
            &&& four.port_spec() == port && six.port_spec() == port
            &&& four.is_ipv4_spec() && !six.is_ipv4_spec()
        }),
        IpAddr::V4(a).text_spec() == a.text_spec(),
        IpAddr::V6(b).text_spec() == b.text_spec(),
{
}

/// The addresses that stand for any address and for the own machine.
pub proof fn law_unspecified_is_zero(ip: Ipv6Addr)
    ensures
        Ipv4Addr::unspecified_spec() == (Ipv4Addr { a: 0, b: 0, c: 0, d: 0 }),
        ip == Ipv6Addr::unspecified_spec() <==> forall|k: int|
            0 <= k < 8 ==> #[trigger] ip.segments_spec()[k] == 0,
        ip == Ipv6Addr::loopback_spec() <==> ip.s7 == 1 && forall|k: int|
            0 <= k < 7 ==> #[trigger] ip.segments_spec()[k] == 0,
{
    let s = ip.segments_spec();
    assert(s[0] == ip.s0 && s[1] == ip.s1 && s[2] == ip.s2 && s[3] == ip.s3 && s[4] == ip.s4 && s[5]
        == ip.s5 && s[6] == ip.s6 && s[7] == ip.s7);
}

} // verus!
