//! Discovery of the public endpoint with STUN binding requests.

use vstd::prelude::*;

use crate::addr::{IpAddr, Ipv4Addr, Ipv6Addr, SocketAddr, SocketAddrV4, SocketAddrV6};
use crate::text;

verus! {

/// Milliseconds allowed for each request that was sent.
pub const STUN_TIMEOUT_MS: u64 = 1000;

/// Milliseconds a single read may block.
pub const STUN_READ_TIMEOUT_MS: u64 = 200;

/// Seconds after which discovery as a whole is given up.
pub const STUN_OVERALL_SECS: u64 = 6;

/// The type of a binding response.
pub const STUN_BINDING_SUCCESS: u16 = 0x0101;

/// The number that every message carries.
pub const STUN_MAGIC_COOKIE: u32 = 0x2112A442;

/// The type of a plain endpoint.
pub const STUN_ATTR_MAPPED_ADDRESS: u16 = 0x0001;

/// The type of a masked endpoint.
pub const STUN_ATTR_XOR_MAPPED_ADDRESS: u16 = 0x0020;

// ---------------------------------------------------------------- bytes

/// The 16-bit number in network byte order at position `i`.
pub open spec fn be16(s: Seq<u8>, i: int) -> u16 {
    (s[i] * 256 + s[i + 1]) as u16
}

/// The 32-bit number in network byte order at position `i`.
pub open spec fn be32(s: Seq<u8>, i: int) -> u32 {
    (s[i] * 0x100_0000 + s[i + 1] * 0x1_0000 + s[i + 2] * 0x100 + s[i + 3]) as u32
}

/// The low `n` bytes of a number, most significant first.
pub open spec fn be_bytes(v: nat, n: nat) -> Seq<u8>
    decreases n,
{
    if n == 0 {
        Seq::empty()
    } else {
        be_bytes(v / 256, (n - 1) as nat).push((v % 256) as u8)
    }
}

fn read_be16(s: &[u8], i: usize) -> (r: u16)
    requires
        i + 2 <= s@.len(),
    ensures
        r == be16(s@, i as int),
{
    (s[i] as u16) * 256 + s[i + 1] as u16
}

fn read_be32(s: &[u8], i: usize) -> (r: u32)
    requires
        i + 4 <= s@.len(),
    ensures
        r == be32(s@, i as int),
{
    (s[i] as u32) * 0x100_0000 + (s[i + 1] as u32) * 0x1_0000 + (s[i + 2] as u32) * 0x100 + s[i
        + 3] as u32
}

// ---------------------------------------------------------------- requests

proof fn lemma_be_bytes_len(v: nat, n: nat)
    ensures
        be_bytes(v, n).len() == n,
    decreases n,
{
    if n > 0 {
        lemma_be_bytes_len(v / 256, (n - 1) as nat);
    }
}

/// Advances the seed by one and takes its low 96 bits as a transaction id.
pub fn next_transaction_id(seed: &mut u128) -> (id: [u8; 12])
    ensures
        *final(seed) == (if *old(seed) == u128::MAX { 0 } else { (*old(seed) + 1) as u128 }),
        id@ == be_bytes(*final(seed) as nat, 12),
{
    *seed = seed.wrapping_add(1);
    let mut id: [u8; 12] = [0u8; 12];
    let mut rest: u128 = *seed;
    let mut i: usize = 12;
    let ghost whole = *seed;
    while i > 0
        invariant
            i <= 12,
            id@.len() == 12,
            be_bytes(whole as nat, 12) == be_bytes(rest as nat, i as nat) + id@.skip(i as int),
        decreases i,
    {
        let ghost tail = id@.skip(i as int);
        i -= 1;
        id[i] = (rest % 256) as u8;
        proof {
            lemma_be_bytes_len((rest / 256) as nat, i as nat);
            assert(id@.skip(i as int) =~= seq![(rest % 256) as u8] + tail);
            assert(be_bytes(rest as nat, (i + 1) as nat) + tail =~= be_bytes(
                (rest / 256) as nat,
                i as nat,
            ) + id@.skip(i as int));
        }
        rest = rest / 256;
    }
    assert(be_bytes(whole as nat, 12) =~= id@);
    id
}

/// Two transaction ids drawn one after the other differ.
pub proof fn law_successive_ids_differ(first: u128, second: u128)
    requires
        second == (if first == u128::MAX { 0 } else { (first + 1) as u128 }),
    ensures
        be_bytes(first as nat, 12) != be_bytes(second as nat, 12),
{
    lemma_be_bytes_len(first as nat / 256, 11);
    lemma_be_bytes_len(second as nat / 256, 11);
    assert(be_bytes(first as nat, 12)[11] == (first % 256) as u8);
    assert(be_bytes(second as nat, 12)[11] == (second % 256) as u8);
}

/// The header of a binding request without attributes, before its transaction id.
pub open spec fn request_head() -> Seq<u8> {
    seq![0u8, 1, 0, 0, 0x21, 0x12, 0xA4, 0x42]
}

/// A binding request: type, zero length, magic cookie, transaction id.
pub fn build_stun_request(txid: [u8; 12]) -> (buf: [u8; 20])
    ensures
        buf@ == request_head() + txid@,
{
    let mut buf: [u8; 20] = [0u8; 20];
    buf[1] = 1;
    buf[4] = 0x21;
    buf[5] = 0x12;
    buf[6] = 0xA4;
    buf[7] = 0x42;
    let mut i: usize = 0;
    while i < 12
        invariant
            i <= 12,
            buf@.len() == 20,
            txid@.len() == 12,
            buf@.take(8) == request_head(),
            buf@.subrange(8, 8 + i) == txid@.take(i as int),
        decreases 12 - i,
    {
        let ghost before = buf@;
        buf[8 + i] = txid[i];
        assert(buf@.take(8) =~= before.take(8));
        assert(buf@.subrange(8, 8 + i + 1) =~= before.subrange(8, 8 + i).push(txid@[i as int]));
        assert(txid@.take(i + 1) =~= txid@.take(i as int).push(txid@[i as int]));
        i += 1;
    }
    assert(buf@ =~= buf@.take(8) + buf@.subrange(8, 20));
    assert(txid@.take(12) =~= txid@);
    buf
}

// ---------------------------------------------------------------- responses

/// The IPv4 address in four bytes from position `i` on.
pub open spec fn v4_at(s: Seq<u8>, i: int) -> Ipv4Addr {
    Ipv4Addr { a: s[i], b: s[i + 1], c: s[i + 2], d: s[i + 3] }
}

/// The IPv6 address in sixteen bytes from position `i` on.
pub open spec fn v6_at(s: Seq<u8>, i: int) -> Ipv6Addr {
    Ipv6Addr {
        s0: be16(s, i),
        s1: be16(s, i + 2),
        s2: be16(s, i + 4),
        s3: be16(s, i + 6),
        s4: be16(s, i + 8),
        s5: be16(s, i + 10),
        s6: be16(s, i + 12),
        s7: be16(s, i + 14),
    }
}

/// The endpoint in a MAPPED-ADDRESS value: a reserved byte, the family, the port,
/// the address.
pub open spec fn mapped_address(value: Seq<u8>) -> Option<SocketAddr> {
    if value.len() >= 8 && value[1] == 1 {
        Some(SocketAddr::new_spec(IpAddr::V4(v4_at(value, 4)), be16(value, 2)))
    } else if value.len() >= 20 && value[1] == 2 {
        Some(SocketAddr::new_spec(IpAddr::V6(v6_at(value, 4)), be16(value, 2)))
    } else {
        None
    }
}

/// The bytes that an XOR-MAPPED-ADDRESS is masked with: the magic cookie, then the
/// transaction id.
pub open spec fn xor_mask(txid: Seq<u8>) -> Seq<u8> {
    seq![0x21u8, 0x12, 0xA4, 0x42] + txid
}

/// The value of an XOR-MAPPED-ADDRESS with the mask taken off: the port against the
/// first two bytes of the mask, the address against all of it.
pub open spec fn unmasked(value: Seq<u8>, txid: Seq<u8>) -> Seq<u8> {
    Seq::new(
        value.len(),
        |i: int|
            if 2 <= i < 4 {
                value[i] ^ xor_mask(txid)[i - 2]
            } else if 4 <= i < 20 {
                value[i] ^ xor_mask(txid)[i - 4]
            } else {
                value[i]
            },
    )
}

/// The endpoint in an XOR-MAPPED-ADDRESS value.
pub open spec fn xor_mapped_address(value: Seq<u8>, txid: Seq<u8>) -> Option<SocketAddr> {
    mapped_address(unmasked(value, txid))
}

/// A length rounded up to a multiple of four.
pub open spec fn padded(len: int) -> int {
    (len + 3) / 4 * 4
}

/// The endpoint that one attribute carries.
pub open spec fn attribute_address(kind: u16, value: Seq<u8>, txid: Seq<u8>) -> Option<SocketAddr> {
    if kind == STUN_ATTR_XOR_MAPPED_ADDRESS {
        xor_mapped_address(value, txid)
    } else if kind == STUN_ATTR_MAPPED_ADDRESS {
        mapped_address(value)
    } else {
        None
    }
}

/// The first endpoint among the attributes from `offset` to `end`; an attribute
/// that overruns the message ends the search.
pub open spec fn first_address(data: Seq<u8>, txid: Seq<u8>, offset: int, end: int) -> Option<
    SocketAddr,
>
    decreases end + 4 - offset,
{
    if offset + 4 > end {
        None
    } else {
        let len = be16(data, offset + 2);
        let value_end = offset + 4 + len;
        if value_end > end {
            None
        } else {
            let here = attribute_address(
                be16(data, offset),
                data.subrange(offset + 4, value_end),
                txid,
            );
            if here is Some {
                here
            } else {
                first_address(data, txid, offset + 4 + padded(len as int), end)
            }
        }
    }
}

/// What a binding response says: its transaction id and the endpoint it carries.
pub open spec fn response(data: Seq<u8>) -> Option<(Seq<u8>, SocketAddr)> {
    if data.len() < 20 || be16(data, 0) != STUN_BINDING_SUCCESS || data.len() < 20 + be16(data, 2)
        || be32(data, 4) != STUN_MAGIC_COOKIE {
        None
    } else {
        let txid = data.subrange(8, 20);
        match first_address(data, txid, 20, 20 + be16(data, 2)) {
            Some(addr) => Some((txid, addr)),
            None => None,
        }
    }
}

fn read_v6(value: &[u8]) -> (r: Ipv6Addr)
    requires
        value@.len() >= 20,
    ensures
        r == v6_at(value@, 4),
{
    Ipv6Addr {
        s0: read_be16(value, 4),
        s1: read_be16(value, 6),
        s2: read_be16(value, 8),
        s3: read_be16(value, 10),
        s4: read_be16(value, 12),
        s5: read_be16(value, 14),
        s6: read_be16(value, 16),
        s7: read_be16(value, 18),
    }
}

/// Reads a MAPPED-ADDRESS value.
pub fn parse_mapped_address(value: &[u8]) -> (r: Option<SocketAddr>)
    ensures
        r == mapped_address(value@),
{
    if value.len() < 4 {
        return None;
    }
    let family: u8 = value[1];
    let port: u16 = read_be16(value, 2);
    if family == 1 {
        if value.len() < 8 {
            return None;
        }
        let ip = Ipv4Addr { a: value[4], b: value[5], c: value[6], d: value[7] };
        Some(SocketAddr::new(IpAddr::V4(ip), port))
    } else if family == 2 {
        if value.len() < 20 {
            return None;
        }
        Some(SocketAddr::new(IpAddr::V6(read_v6(value)), port))
    } else {
        None
    }
}

/// Reads an XOR-MAPPED-ADDRESS value of the response to transaction `txid`.
pub fn parse_xor_mapped_address(value: &[u8], txid: &[u8; 12]) -> (r: Option<SocketAddr>)
    ensures
        r == xor_mapped_address(value@, txid@),
{
    let mask: [u8; 4] = [0x21u8, 0x12, 0xA4, 0x42];
    let mut plain: Vec<u8> = Vec::new();
    let mut i: usize = 0;
    while i < value.len()
        invariant
            i <= value@.len(),
            plain@ == unmasked(value@, txid@).take(i as int),
            mask@ == seq![0x21u8, 0x12, 0xA4, 0x42],
        decreases value@.len() - i,
    {
        let b: u8 = if 2 <= i && i < 4 {
            assert(xor_mask(txid@)[i - 2] == mask@[i - 2]);
            value[i] ^ mask[i - 2]
        } else if 4 <= i && i < 8 {
            assert(xor_mask(txid@)[i - 4] == mask@[i - 4]);
            value[i] ^ mask[i - 4]
        } else if 8 <= i && i < 20 {
            assert(xor_mask(txid@)[i - 4] == txid@[i - 8]);
            value[i] ^ txid[i - 8]
        } else {
            value[i]
        };
        plain.push(b);
        assert(plain@ =~= unmasked(value@, txid@).take(i + 1));
        i += 1;
    }
    assert(plain@ =~= unmasked(value@, txid@));
    parse_mapped_address(plain.as_slice())
}

/// Reads a binding response.
pub fn parse_stun_response(data: &[u8]) -> (r: Option<([u8; 12], SocketAddr)>)
    ensures
        match r {
            Some((txid, addr)) => response(data@) == Some((txid@, addr)),
            None => response(data@) is None,
        },
{
    if data.len() < 20 {
        return None;
    }
    if read_be16(data, 0) != STUN_BINDING_SUCCESS {
        return None;
    }
    let end: usize = 20 + read_be16(data, 2) as usize;
    if data.len() < end {
        return None;
    }
    if read_be32(data, 4) != STUN_MAGIC_COOKIE {
        return None;
    }
    let mut txid: [u8; 12] = [0u8; 12];
    let mut k: usize = 0;
    while k < 12
        invariant
            k <= 12,
            data@.len() >= 20,
            txid@.len() == 12,
            txid@.take(k as int) == data@.subrange(8, 8 + k),
        decreases 12 - k,
    {
        let ghost before = txid@;
        txid[k] = data[8 + k];
        assert(txid@.take(k + 1) =~= before.take(k as int).push(data@[8 + k]));
        assert(data@.subrange(8, 8 + k + 1) =~= data@.subrange(8, 8 + k).push(data@[8 + k]));
        k += 1;
    }
    assert(txid@ =~= data@.subrange(8, 20));
    let mut offset: usize = 20;
    while offset + 4 <= end
        invariant
            20 <= offset <= end + 3,
            end <= data@.len(),
            end <= 20 + 0xffff,
            data@.len() >= 20,
            txid@ == data@.subrange(8, 20),
            end == 20 + be16(data@, 2),
            be16(data@, 0) == STUN_BINDING_SUCCESS,
            be32(data@, 4) == STUN_MAGIC_COOKIE,
            first_address(data@, txid@, 20, end as int) == first_address(
                data@,
                txid@,
                offset as int,
                end as int,
            ),
        decreases end + 4 - offset,
    {
        let kind: u16 = read_be16(data, offset);
        let len: usize = read_be16(data, offset + 2) as usize;
        let value_start: usize = offset + 4;
        let value_end: usize = value_start + len;
        if value_end > end {
            return None;
        }
        let value = vstd::slice::slice_subrange(data, value_start, value_end);
        let addr = if kind == STUN_ATTR_XOR_MAPPED_ADDRESS {
            parse_xor_mapped_address(value, &txid)
        } else if kind == STUN_ATTR_MAPPED_ADDRESS {
            parse_mapped_address(value)
        } else {
            None
        };
        if let Some(found) = addr {
            return Some((txid, found));
        }
        offset = value_start + (len + 3) / 4 * 4;
    }
    None
}

/// Taking the mask off twice gives the value back.
pub proof fn law_mask_is_its_own_inverse(value: Seq<u8>, txid: Seq<u8>)
    requires
        txid.len() == 12,
    ensures
        unmasked(unmasked(value, txid), txid) == value,
{
    assert forall|i: int| 0 <= i < value.len() implies #[trigger] unmasked(
        unmasked(value, txid),
        txid,
    )[i] == value[i] by {
        assert(forall|a: u8, m: u8| #[trigger] ((a ^ m) ^ m) == a) by (bit_vector);
    }
    assert(unmasked(unmasked(value, txid), txid) =~= value);
}

// ---------------------------------------------------------------- servers

/// The servers asked when none are configured. A host name belongs to no family:
/// `pick_server_addr` chooses among the addresses that it resolves to.
pub open spec fn default_servers(v4: bool) -> Seq<Seq<char>> {
    let shared = seq![
        "stun.cloudflare.com:3478"@,
        "global.stun.twilio.com:3478"@,
        "stun.l.google.com:19302"@,
        "stun1.l.google.com:19302"@,
        "stun2.l.google.com:19302"@,
        "stun3.l.google.com:19302"@,
        "stun4.l.google.com:19302"@,
        "stun.sipgate.net:3478"@,
        "stun.nextcloud.com:443"@,
        "stun.zoiper.com:3478"@,
        "stun.ekiga.net:3478"@,
    ];
    if v4 {
        shared.push("stun.voxgratia.org:3478"@)
    } else {
        shared.push("stunserver.org:3478"@).push("stun.voxgratia.org:3478"@)
    }
}

/// The servers to ask: those of a configured list, unless it is blank or missing.
pub open spec fn servers(v4: bool, configured: Option<Seq<char>>) -> Seq<Seq<char>> {
    let listed = match configured {
        Some(value) => text::kept_pieces(text::pieces(value, ',')),
        None => Seq::empty(),
    };
    if listed.len() > 0 {
        listed
    } else {
        default_servers(v4)
    }
}

/// The servers to ask from a socket bound to `bind_addr`; `configured` is the
/// comma-separated list that the user may have set.
pub fn stun_server_list(bind_addr: SocketAddr, configured: Option<&str>) -> (r: Vec<String>)
    ensures
        text::texts(r@) == servers(
            bind_addr.is_ipv4_spec(),
            match configured {
                Some(value) => Some(value@),
                None => None,
            },
        ),
{
    if let Some(value) = configured {
        let list = text::list_entries(value, ',');
        if list.len() > 0 {
            return list;
        }
    }
    let mut r: Vec<String> = Vec::new();
    r.push("stun.cloudflare.com:3478".to_owned());
    r.push("global.stun.twilio.com:3478".to_owned());
    r.push("stun.l.google.com:19302".to_owned());
    r.push("stun1.l.google.com:19302".to_owned());
    r.push("stun2.l.google.com:19302".to_owned());
    r.push("stun3.l.google.com:19302".to_owned());
    r.push("stun4.l.google.com:19302".to_owned());
    r.push("stun.sipgate.net:3478".to_owned());
    r.push("stun.nextcloud.com:443".to_owned());
    r.push("stun.zoiper.com:3478".to_owned());
    r.push("stun.ekiga.net:3478".to_owned());
    if !bind_addr.is_ipv4() {
        r.push("stunserver.org:3478".to_owned());
    }
    r.push("stun.voxgratia.org:3478".to_owned());
    assert(text::texts(r@) =~= default_servers(bind_addr.is_ipv4_spec()));
    r
}

/// Whether `i` is the first address of the wanted family.
pub open spec fn first_of_family(addrs: Seq<SocketAddr>, v4: bool, i: int) -> bool {
    &&& 0 <= i < addrs.len()
    &&& addrs[i].is_ipv4_spec() == v4
    &&& forall|k: int| 0 <= k < i ==> #[trigger] addrs[k].is_ipv4_spec() != v4
}

/// Whether no address has the wanted family.
pub open spec fn none_of_family(addrs: Seq<SocketAddr>, v4: bool) -> bool {
    forall|k: int| 0 <= k < addrs.len() ==> #[trigger] addrs[k].is_ipv4_spec() != v4
}

/// Chooses among the addresses of a server: the first of the family of `bind_addr`, none
/// where there is none of that family.
pub fn pick_server_addr(addrs: &Vec<SocketAddr>, bind_addr: SocketAddr) -> (r: Option<SocketAddr>)
    ensures
        r is None <==> none_of_family(addrs@, bind_addr.is_ipv4_spec()),
        forall|i: int| #[trigger]
            first_of_family(addrs@, bind_addr.is_ipv4_spec(), i) ==> r == Some(addrs@[i]),
        r matches Some(addr) ==> addr.is_ipv4_spec() == bind_addr.is_ipv4_spec() && addrs@.contains(
            addr,
        ),
{
    let want_v4 = bind_addr.is_ipv4();
    let mut i: usize = 0;
    while i < addrs.len()
        invariant
            i <= addrs@.len(),
            want_v4 == bind_addr.is_ipv4_spec(),
            forall|k: int| 0 <= k < i ==> #[trigger] addrs@[k].is_ipv4_spec() != want_v4,
        decreases addrs@.len() - i,
    {
        if addrs[i].is_ipv4() == want_v4 {
            assert forall|j: int| #[trigger] first_of_family(addrs@, want_v4, j) implies j == i by {
                if j < i {
                    assert(addrs@[j].is_ipv4_spec() != want_v4);
                } else if j > i {
                    assert(addrs@[i as int].is_ipv4_spec() != want_v4);
                }
            }
            assert(addrs@.contains(addrs@[i as int]));
            return Some(addrs[i]);
        }
        i += 1;
    }
    None
}

// ---------------------------------------------------------------- probe

/// What a read on the probing socket gave.
pub enum ProbeRead {
    /// A datagram.
    Datagram(Vec<u8>),
    /// Nothing within the read timeout.
    Idle,
    /// Another error, as text.
    Failed(String),
}

/// A running discovery: ids of the requests on their way and the last error.
pub struct StunProbe {
    pub bind_addr: SocketAddr,
    pub seed: u128,
    pub requests: Vec<[u8; 12]>,
    pub last_err: Option<String>,
}

/// The ids of the requests on their way.
pub open spec fn request_ids(requests: Seq<[u8; 12]>) -> Seq<Seq<u8>> {
    requests.map_values(|id: [u8; 12]| id@)
}

/// The endpoint that a datagram establishes: it answers one of the requests, and its
/// endpoint has the family of the socket.
pub open spec fn accepted(data: Seq<u8>, requests: Seq<Seq<u8>>, v4: bool) -> Option<SocketAddr> {
    match response(data) {
        Some((txid, addr)) => if requests.contains(txid) && addr.is_ipv4_spec() == v4 {
            Some(addr)
        } else {
            None
        },
        None => None,
    }
}

fn same_id(a: &[u8; 12], b: &[u8; 12]) -> (r: bool)
    ensures
        r == (a@ == b@),
{
    let mut i: usize = 0;
    while i < 12
        invariant
            i <= 12,
            forall|k: int| 0 <= k < i ==> a@[k] == b@[k],
        decreases 12 - i,
    {
        if a[i] != b[i] {
            return false;
        }
        i += 1;
    }
    assert(a@ =~= b@);
    true
}

fn text_or(text: &Option<String>, default: &str) -> (r: String)
    ensures
        r@ == match *text {
            Some(t) => t@,
            None => default@,
        },
{
    match text {
        Some(t) => t.as_str().to_owned(),
        None => default.to_owned(),
    }
}

impl StunProbe {
    /// A discovery without requests. The seed numbers the requests that follow.
    pub fn new(bind_addr: SocketAddr, seed: u128) -> (r: StunProbe)
        ensures
            r.bind_addr == bind_addr,
            r.seed == seed,
            r.requests@.len() == 0,
            r.last_err is None,
    {
        StunProbe { bind_addr, seed, requests: Vec::new(), last_err: None }
    }

    /// Takes the addresses that a server's name resolved to. Gives the request to send,
    /// with its id and destination; a name without an address of the family of the socket is
    /// noted as the last error.
    pub fn resolved(&mut self, server: &str, addrs: Result<Vec<SocketAddr>, String>) -> (r: Option<
        ([u8; 12], [u8; 20], SocketAddr),
    >)
        ensures
            final(self).bind_addr == old(self).bind_addr,
            final(self).requests == old(self).requests,
            match addrs {
                Ok(list) => if none_of_family(list@, old(self).bind_addr.is_ipv4_spec()) {
                    &&& r is None
                    &&& final(self).seed == old(self).seed
                    &&& final(self).last_err matches Some(t) && t@ == "falha ao resolver STUN "@
                        + server@ + ": "@ + "STUN sem endereco"@
                } else {
                    &&& final(self).last_err == old(self).last_err
                    &&& final(self).seed == (if old(self).seed == u128::MAX {
                        0
                    } else {
                        (old(self).seed + 1) as u128
                    })
                    &&& r matches Some((txid, request, to)) && {
                        &&& txid@ == be_bytes(final(self).seed as nat, 12)
                        &&& request@ == request_head() + txid@
                        &&& forall|i: int| #[trigger]
                            first_of_family(list@, old(self).bind_addr.is_ipv4_spec(), i) ==> to
                                == list@[i]
                        &&& to.is_ipv4_spec() == old(self).bind_addr.is_ipv4_spec()
                        &&& list@.contains(to)
                    }
                },
                Err(err) => {
                    &&& r is None
                    &&& final(self).seed == old(self).seed
                    &&& final(self).last_err matches Some(t) && t@ == "falha ao resolver STUN "@
                        + server@ + ": "@ + err@
                },
            },
    {
        let problem = match addrs {
            Ok(list) => {
                match pick_server_addr(&list, self.bind_addr) {
                    Some(to) => {
                        let txid = next_transaction_id(&mut self.seed);
                        return Some((txid, build_stun_request(txid), to));
                    },
                    None => "STUN sem endereco".to_owned(),
                }
            },
            Err(err) => err,
        };
        let mut note = "falha ao resolver STUN ".to_owned();
        note.append(server);
        note.append(": ");
        note.append(problem.as_str());
        self.last_err = Some(note);
        None
    }

    /// Takes the outcome of sending request `txid` to a server.
    pub fn sent(&mut self, server: &str, txid: [u8; 12], outcome: Result<(), String>)
        ensures
            final(self).bind_addr == old(self).bind_addr,
            final(self).seed == old(self).seed,
            match outcome {
                Ok(_) => {
                    &&& final(self).requests@ == old(self).requests@.push(txid)
                    &&& final(self).last_err == old(self).last_err
                },
                Err(err) => {
                    &&& final(self).requests == old(self).requests
                    &&& final(self).last_err matches Some(t) && t@ == "falha STUN "@ + server@
                        + ": "@ + err@
                },
            },
    {
        match outcome {
            Ok(_) => {
                self.requests.push(txid);
            },
            Err(err) => {
                let mut note = "falha STUN ".to_owned();
                note.append(server);
                note.append(": ");
                note.append(err.as_str());
                self.last_err = Some(note);
            },
        }
    }

    /// How many milliseconds to wait for responses: one second for each request; an
    /// error where no request is on its way.
    pub fn patience(&self) -> (r: Result<u64, String>)
        ensures
            match r {
                Ok(ms) => self.requests@.len() > 0 && ms == (if self.requests@.len()
                    * STUN_TIMEOUT_MS <= u64::MAX {
                    self.requests@.len() * STUN_TIMEOUT_MS
                } else {
                    u64::MAX as int
                }),
                Err(t) => self.requests@.len() == 0 && t@ == match self.last_err {
                    Some(e) => e@,
                    None => "STUN sem servidores"@,
                },
            },
    {
        if self.requests.len() == 0 {
            return Err(text_or(&self.last_err, "STUN sem servidores"));
        }
        let ms: u128 = STUN_TIMEOUT_MS as u128 * self.requests.len() as u128;
        if ms <= u64::MAX as u128 {
            Ok(ms as u64)
        } else {
            Ok(u64::MAX)
        }
    }

    /// Whether a request with this id is on its way.
    pub fn awaits(&self, txid: &[u8; 12]) -> (r: bool)
        ensures
            r == request_ids(self.requests@).contains(txid@),
    {
        let ghost ids = request_ids(self.requests@);
        let mut i: usize = 0;
        while i < self.requests.len()
            invariant
                i <= self.requests@.len(),
                ids == request_ids(self.requests@),
                forall|k: int| 0 <= k < i ==> ids[k] != txid@,
            decreases self.requests@.len() - i,
        {
            if same_id(&self.requests[i], txid) {
                assert(ids[i as int] == txid@);
                return true;
            }
            i += 1;
        }
        false
    }

    /// Takes what a read gave: the endpoint, where the datagram establishes it.
    pub fn received(&mut self, read: ProbeRead) -> (r: Option<SocketAddr>)
        ensures
            final(self).bind_addr == old(self).bind_addr,
            final(self).seed == old(self).seed,
            final(self).requests == old(self).requests,
            match read {
                ProbeRead::Datagram(data) => {
                    &&& r == accepted(
                        data@,
                        request_ids(old(self).requests@),
                        old(self).bind_addr.is_ipv4_spec(),
                    )
                    &&& final(self).last_err == old(self).last_err
                },
                ProbeRead::Idle => r is None && final(self).last_err == old(self).last_err,
                ProbeRead::Failed(err) => r is None && (final(self).last_err matches Some(t) && t@
                    == "falha ao receber STUN: "@ + err@),
            },
    {
        match read {
            ProbeRead::Datagram(data) => {
                if let Some((txid, endpoint)) = parse_stun_response(data.as_slice()) {
                    if self.awaits(&txid) && endpoint.is_ipv4() == self.bind_addr.is_ipv4() {
                        return Some(endpoint);
                    }
                }
                None
            },
            ProbeRead::Idle => None,
            ProbeRead::Failed(err) => {
                self.last_err = Some(text::joined("falha ao receber STUN: ", err.as_str()));
                None
            },
        }
    }

    /// The error when no response came in time.
    pub fn expired(&self) -> (r: String)
        ensures
            r@ == match self.last_err {
                Some(e) => e@,
                None => "STUN sem resposta"@,
            },
    {
        text_or(&self.last_err, "STUN sem resposta")
    }
}

/// An endpoint is accepted only in answer to a request that was sent, and it has the
/// family of the socket.
pub proof fn law_endpoint_answers_a_request(data: Seq<u8>, requests: Seq<Seq<u8>>, v4: bool)
    ensures
        accepted(data, requests, v4) matches Some(addr) ==> addr.is_ipv4_spec() == v4
            && requests.contains(data.subrange(8, 20)),
        requests.len() == 0 ==> accepted(data, requests, v4) is None,
{
}

/// A 16-bit number in network byte order.
pub open spec fn two_bytes(v: u16) -> Seq<u8> {
    seq![(v / 256) as u8, (v % 256) as u8]
}

/// An endpoint as a MAPPED-ADDRESS value.
pub open spec fn endpoint_value(ip: IpAddr, port: u16) -> Seq<u8> {
    match ip {
        IpAddr::V4(v4) => seq![0u8, 1] + two_bytes(port) + seq![v4.a, v4.b, v4.c, v4.d],
        IpAddr::V6(v6) => seq![0u8, 2] + two_bytes(port) + two_bytes(v6.s0) + two_bytes(v6.s1)
            + two_bytes(v6.s2) + two_bytes(v6.s3) + two_bytes(v6.s4) + two_bytes(v6.s5)
            + two_bytes(v6.s6) + two_bytes(v6.s7),
    }
}

/// A binding response with one XOR-MAPPED-ADDRESS: type, length, magic cookie, transaction id,
/// and the attribute's type, length and masked value.
pub open spec fn binding_response(txid: Seq<u8>, ip: IpAddr, port: u16) -> Seq<u8> {
    let value = endpoint_value(ip, port);
    seq![1u8, 1] + two_bytes((value.len() + 4) as u16) + seq![0x21u8, 0x12, 0xA4, 0x42] + txid
        + seq![0u8, 0x20] + two_bytes(value.len() as u16) + unmasked(value, txid)
}

/// A server's answer is read as the endpoint that the server saw, and as the answer to the
/// request with its transaction id.
pub proof fn law_response_is_read(txid: Seq<u8>, ip: IpAddr, port: u16)
    requires
        txid.len() == 12,
    ensures
        response(binding_response(txid, ip, port)) == Some((txid, SocketAddr::new_spec(ip, port))),
{
    let value = endpoint_value(ip, port);
    let data = binding_response(txid, ip, port);
    assert(value.len() == 8 || value.len() == 20);
    assert(data.len() == 24 + value.len());
    assert(data.subrange(8, 20) =~= txid);
    assert(data.subrange(24, 24 + value.len() as int) =~= unmasked(value, txid));
    assert(data[0] == 1 && data[1] == 1);
    assert(be16(data, 2) == value.len() + 4);
    assert(data[4] == 0x21 && data[5] == 0x12 && data[6] == 0xA4 && data[7] == 0x42);
    assert(be32(data, 4) == STUN_MAGIC_COOKIE);
    assert(data[20] == 0 && data[21] == 0x20);
    assert(be16(data, 20) == STUN_ATTR_XOR_MAPPED_ADDRESS);
    assert(be16(data, 22) == value.len());
    law_mask_is_its_own_inverse(value, txid);
    assert(be16(value, 2) == port);
    match ip {
        IpAddr::V4(v4) => {
            assert(v4_at(value, 4) == v4);
        },
        IpAddr::V6(v6) => {
            assert(be16(value, 4) == v6.s0);
            assert(be16(value, 6) == v6.s1);
            assert(be16(value, 8) == v6.s2);
            assert(be16(value, 10) == v6.s3);
            assert(be16(value, 12) == v6.s4);
            assert(be16(value, 14) == v6.s5);
            assert(be16(value, 16) == v6.s6);
            assert(be16(value, 18) == v6.s7);
            assert(v6_at(value, 4) == v6);
        },
    }
    assert(mapped_address(value) == Some(SocketAddr::new_spec(ip, port)));
    reveal_with_fuel(first_address, 2);
}

/// The answer to a request on its way establishes the endpoint that the server saw, where that
/// is of the socket's family.
pub proof fn law_answer_is_accepted(
    requests: Seq<Seq<u8>>,
    txid: Seq<u8>,
    ip: IpAddr,
    port: u16,
    v4: bool,
)
    requires
        txid.len() == 12,
        requests.contains(txid),
        (ip is V4) == v4,
    ensures
        accepted(binding_response(txid, ip, port), requests, v4) == Some(
            SocketAddr::new_spec(ip, port),
        ),
{
    law_response_is_read(txid, ip, port);
}

// ---------------------------------------------------------------- laws

/// Numbers are read with the high byte first.
pub proof fn law_numbers_are_read_high_byte_first(s: Seq<u8>, i: int)
    ensures
        be16(s, i) == s[i] * 256 + s[i + 1],
        be32(s, i) == s[i] * 16777216 + s[i + 1] * 65536 + s[i + 2] * 256 + s[i + 3],
{
}

/// The number of a request is written with the high byte first, in twelve bytes.
pub proof fn law_request_numbers_are_written_high_byte_first(v: nat)
    ensures
        be_bytes(v, 12) == seq![
            (v / 256 / 256 / 256 / 256 / 256 / 256 / 256 / 256 / 256 / 256 / 256 % 256) as u8,
            (v / 256 / 256 / 256 / 256 / 256 / 256 / 256 / 256 / 256 / 256 % 256) as u8,
            (v / 256 / 256 / 256 / 256 / 256 / 256 / 256 / 256 / 256 % 256) as u8,
            (v / 256 / 256 / 256 / 256 / 256 / 256 / 256 / 256 % 256) as u8,
            (v / 256 / 256 / 256 / 256 / 256 / 256 / 256 % 256) as u8,
            (v / 256 / 256 / 256 / 256 / 256 / 256 % 256) as u8,
            (v / 256 / 256 / 256 / 256 / 256 % 256) as u8,
            (v / 256 / 256 / 256 / 256 % 256) as u8,
            (v / 256 / 256 / 256 % 256) as u8,
            (v / 256 / 256 % 256) as u8,
            (v / 256 % 256) as u8,
            (v % 256) as u8,
        ],
{
    reveal_with_fuel(be_bytes, 13);
}

/// A request asks for a binding, with nothing in it, and bears the cookie.
pub proof fn law_requests_ask_for_a_binding()
    ensures
        request_head() == seq![0u8, 1u8, 0u8, 0u8, 33u8, 18u8, 164u8, 66u8],
{
}

/// An address that is told plainly has its family in the second byte, its port in the next two, and
/// its octets behind them; one of another family, or cut short, is none.
pub proof fn law_plain_addresses_are_read(v: Seq<u8>)
    ensures
        v.len() >= 8 && v[1] == 1 ==> mapped_address(v) == Some(
            SocketAddr::V4(
                SocketAddrV4 {
                    ip: Ipv4Addr { a: v[4], b: v[5], c: v[6], d: v[7] },
                    port: (v[2] * 256 + v[3]) as u16,
                },
            ),
        ),
        v.len() >= 20 && v[1] == 2 ==> mapped_address(v) == Some(
            SocketAddr::V6(
                SocketAddrV6 {
                    ip: Ipv6Addr {
                        s0: (v[4] * 256 + v[5]) as u16,
                        s1: (v[6] * 256 + v[7]) as u16,
                        s2: (v[8] * 256 + v[9]) as u16,
                        s3: (v[10] * 256 + v[11]) as u16,
                        s4: (v[12] * 256 + v[13]) as u16,
                        s5: (v[14] * 256 + v[15]) as u16,
                        s6: (v[16] * 256 + v[17]) as u16,
                        s7: (v[18] * 256 + v[19]) as u16,
                    },
                    port: (v[2] * 256 + v[3]) as u16,
                    flowinfo: 0,
                    scope_id: 0,
                },
            ),
        ),
        v.len() < 8 ==> mapped_address(v) is None,
        v.len() < 20 && v[1] == 2 ==> mapped_address(v) is None,
        v[1] != 1 && v[1] != 2 ==> mapped_address(v) is None,
{
}

/// A masked address is one that is told plainly once its port is unmasked with the first two bytes of
/// the cookie and its octets with the cookie and the number of the request behind it; its family is
/// not masked.
pub proof fn law_masked_addresses_are_read(v: Seq<u8>, txid: Seq<u8>, plain: Seq<u8>)
    requires
        txid.len() == 12,
        plain.len() == v.len(),
        forall|i: int| 0 <= i < v.len() && (i < 2 || 20 <= i) ==> #[trigger] plain[i] == v[i],
        v.len() > 2 ==> plain[2] == v[2] ^ 0x21,
        v.len() > 3 ==> plain[3] == v[3] ^ 0x12,
        v.len() > 4 ==> plain[4] == v[4] ^ 0x21,
        v.len() > 5 ==> plain[5] == v[5] ^ 0x12,
        v.len() > 6 ==> plain[6] == v[6] ^ 0xA4,
        v.len() > 7 ==> plain[7] == v[7] ^ 0x42,
        forall|i: int| 8 <= i < 20 && i < v.len() ==> #[trigger] plain[i] == v[i] ^ txid[i - 8],
    ensures
        xor_mapped_address(v, txid) == mapped_address(plain),
{
    let mask = xor_mask(txid);
    assert(mask[0] == 0x21 && mask[1] == 0x12 && mask[2] == 0xA4 && mask[3] == 0x42);
    assert forall|i: int| 0 <= i < v.len() implies #[trigger] unmasked(v, txid)[i] == plain[i] by {
        if 8 <= i < 20 {
            assert(mask[i - 4] == txid[i - 8]);
        }
    }
    assert(unmasked(v, txid) =~= plain);
}

/// Values are filled up to the next multiple of four bytes.
pub proof fn law_values_are_padded(len: int)
    requires
        len >= 0,
    ensures
        padded(len) % 4 == 0,
        len <= padded(len) < len + 4,
{
}

/// Of the attributes, which stand one behind the other, the first that tells an address counts, masked
/// or plain; those of other kinds are passed over, and one that reaches beyond the end ends them.
pub proof fn law_first_told_address_counts(
    data: Seq<u8>,
    txid: Seq<u8>,
    offset: int,
    end: int,
)
    requires
        0 <= offset,
        end <= data.len(),
    ensures
        offset + 4 > end ==> first_address(data, txid, offset, end) is None,
        offset + 4 <= end ==> {
            let kind = data[offset] * 256 + data[offset + 1];
            let len = data[offset + 2] * 256 + data[offset + 3];
            let value = data.subrange(offset + 4, offset + 4 + len);
            let told = if kind == 32 {
                xor_mapped_address(value, txid)
            } else if kind == 1 {
                mapped_address(value)
            } else {
                None
            };
            let fill = if len % 4 == 0 {
                0
            } else {
                4 - len % 4
            };
            &&& offset + 4 + len > end ==> first_address(data, txid, offset, end) is None
            &&& offset + 4 + len <= end && told is Some ==> first_address(data, txid, offset, end)
                == told
            &&& offset + 4 + len <= end && told is None ==> first_address(data, txid, offset, end)
                == first_address(data, txid, offset + 4 + len + fill, end)
        },
{
    if offset + 4 <= end {
        let len = data[offset + 2] * 256 + data[offset + 3];
        let fill = if len % 4 == 0 {
            0
        } else {
            4 - len % 4
        };
        assert(padded(len) == len + fill);
        assert(be16(data, offset + 2) == len);
    }
}

/// A datagram is an answer where it is long enough for its head and for the length told there, is of
/// the kind of a granted binding, and bears the cookie; it gives the number of its request and the
/// address that its attributes tell. Any other is none.
pub proof fn law_answers_are_read(d: Seq<u8>)
    ensures
        ({
            let granted = d.len() >= 20 && d[0] == 1 && d[1] == 1 && d[4] == 0x21 && d[5] == 0x12
                && d[6] == 0xA4 && d[7] == 0x42 && d.len() >= 20 + d[2] * 256 + d[3];
            let told = first_address(d, d.subrange(8, 20), 20, 20 + d[2] * 256 + d[3]);
            &&& !granted ==> response(d) is None
            &&& granted && told is None ==> response(d) is None
            &&& granted && told is Some ==> response(d) == Some((d.subrange(8, 20), told->0))
        }),
{
    if d.len() >= 20 {
        assert(be16(d, 0) == 0x0101 <==> d[0] == 1 && d[1] == 1);
        assert(be32(d, 4) == 0x2112A442 <==> d[4] == 0x21 && d[5] == 0x12 && d[6] == 0xA4 && d[7]
            == 0x42);
    }
}

/// An answer is accepted where it is to a request that was made, and its address is of the family
/// asked for; no other datagram is.
pub proof fn law_only_answers_are_accepted(
    d: Seq<u8>,
    requests: Seq<Seq<u8>>,
    v4: bool,
    txid: Seq<u8>,
    addr: SocketAddr,
)
    ensures
        response(d) is None ==> accepted(d, requests, v4) is None,
        response(d) == Some((txid, addr)) && requests.contains(txid) && (addr is V4) == v4
            ==> accepted(d, requests, v4) == Some(addr),
        response(d) == Some((txid, addr)) && !requests.contains(txid) ==> accepted(d, requests, v4)
            is None,
        response(d) == Some((txid, addr))
            && (addr is V4) != v4 ==> accepted(d, requests, v4) is None,
{
}

/// The servers that the user lists are asked, those and no others, unless the list names none.
pub proof fn law_listed_servers_are_asked(v4: bool, value: Seq<char>)
    ensures
        ({
            let listed = text::kept_pieces(text::pieces(value, ','));
            &&& listed.len() > 0 ==> servers(v4, Some(value)) == listed
            &&& listed.len() == 0 ==> servers(v4, Some(value)) == default_servers(v4)
            &&& servers(v4, None) == default_servers(v4)
        }),
{
}

/// Without a list twelve servers are asked, and one more where no IPv4 address is looked for.
pub proof fn law_servers_are_known()
    ensures
        default_servers(true) == seq![
            "stun.cloudflare.com:3478"@,
            "global.stun.twilio.com:3478"@,
            "stun.l.google.com:19302"@,
            "stun1.l.google.com:19302"@,
            "stun2.l.google.com:19302"@,
            "stun3.l.google.com:19302"@,
            "stun4.l.google.com:19302"@,
            "stun.sipgate.net:3478"@,
            "stun.nextcloud.com:443"@,
            "stun.zoiper.com:3478"@,
            "stun.ekiga.net:3478"@,
            "stun.voxgratia.org:3478"@,
        ],
        default_servers(false) == seq![
            "stun.cloudflare.com:3478"@,
            "global.stun.twilio.com:3478"@,
            "stun.l.google.com:19302"@,
            "stun1.l.google.com:19302"@,
            "stun2.l.google.com:19302"@,
            "stun3.l.google.com:19302"@,
            "stun4.l.google.com:19302"@,
            "stun.sipgate.net:3478"@,
            "stun.nextcloud.com:443"@,
            "stun.zoiper.com:3478"@,
            "stun.ekiga.net:3478"@,
            "stunserver.org:3478"@,
            "stun.voxgratia.org:3478"@,
        ],
        STUN_TIMEOUT_MS == 1000,
        STUN_READ_TIMEOUT_MS == 200,
        STUN_OVERALL_SECS == 6,
{
}

/// Of the addresses of a server the first of the family is taken.
pub proof fn law_first_of_the_family_is_taken(addrs: Seq<SocketAddr>, v4: bool, i: int)
    ensures
        first_of_family(addrs, v4, i) <==> 0 <= i < addrs.len() && (addrs[i] is V4) == v4
            && (forall|
            k: int,
        |
            0 <= k < i ==> ((#[trigger] addrs[k]) is V4) != v4),
        none_of_family(addrs, v4) <==> forall|k: int|
            0 <= k < addrs.len() ==> ((#[trigger] addrs[k]) is V4) != v4,
{
    assert forall|k: int| 0 <= k < addrs.len() implies ((#[trigger] addrs[k]) is V4)
        == addrs[k].is_ipv4_spec() by {}
    if forall|k: int| 0 <= k < i ==> ((#[trigger] addrs[k]) is V4) != v4 {
        assert forall|k: int| 0 <= k < i implies #[trigger] addrs[k].is_ipv4_spec() != v4 by {
            assert((addrs[k] is V4) != v4);
        }
    }
    if forall|k: int| 0 <= k < addrs.len() ==> ((#[trigger] addrs[k]) is V4) != v4 {
        assert forall|k: int| 0 <= k < addrs.len() implies #[trigger] addrs[k].is_ipv4_spec()
            != v4 by {
            assert((addrs[k] is V4) != v4);
        }
    }
    if none_of_family(addrs, v4) {
        assert forall|k: int| 0 <= k < addrs.len() implies ((#[trigger] addrs[k]) is V4) != v4 by {
            assert(addrs[k].is_ipv4_spec() != v4);
        }
    }
    if first_of_family(addrs, v4, i) {
        assert forall|k: int| 0 <= k < i implies ((#[trigger] addrs[k]) is V4) != v4 by {
            assert(addrs[k].is_ipv4_spec() != v4);
        }
    }
}

} // verus!
