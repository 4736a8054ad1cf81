//! The binary encoding of values on the wire: numbers in little-endian order, byte
//! strings and texts behind their length, options behind a tag byte.

use vstd::prelude::*;

use crate::addr::{Ipv4Addr, Ipv6Addr, SocketAddr, SocketAddrV4, SocketAddrV6};
use crate::text;

verus! {

// ---------------------------------------------------------------- numbers

/// The low `width` bytes of a number, least significant first.
pub open spec fn le(n: nat, width: nat) -> Seq<u8>
    decreases width,
{
    if width == 0 {
        Seq::empty()
    } else {
        seq![(n % 256) as u8] + le(n / 256, (width - 1) as nat)
    }
}

/// The number that bytes stand for, least significant first.
pub open spec fn le_value(s: Seq<u8>) -> nat
    decreases s.len(),
{
    if s.len() == 0 {
        0
    } else {
        s[0] as nat + 256 * le_value(s.skip(1))
    }
}

/// 256 to a power.
pub open spec fn pow256(n: nat) -> nat
    decreases n,
{
    if n == 0 {
        1
    } else {
        256 * pow256((n - 1) as nat)
    }
}

/// The powers for the widths in use.
pub proof fn lemma_pow256()
    ensures
        pow256(1) == 0x100,
        pow256(2) == 0x1_0000,
        pow256(4) == 0x1_0000_0000,
        pow256(8) == 0x1_0000_0000_0000_0000,
{
    reveal_with_fuel(pow256, 9);
}

/// A number takes as many bytes as its width.
pub proof fn lemma_le_len(n: nat, width: nat)
    ensures
        le(n, width).len() == width,
    decreases width,
{
    if width > 0 {
        lemma_le_len(n / 256, (width - 1) as nat);
    }
}

/// Reading the bytes of a number gives the number.
pub proof fn law_numbers_survive(n: nat, width: nat)
    requires
        n < pow256(width),
    ensures
        le(n, width).len() == width,
        le_value(le(n, width)) == n,
    decreases width,
{
    lemma_le_len(n, width);
    if width > 0 {
        law_numbers_survive(n / 256, (width - 1) as nat);
        assert(le(n, width).skip(1) =~= le(n / 256, (width - 1) as nat));
    }
}

/// Bytes stand for a number below the power of their count.
pub proof fn lemma_le_value_bound(s: Seq<u8>)
    ensures
        le_value(s) < pow256(s.len()),
    decreases s.len(),
{
    if s.len() > 0 {
        lemma_le_value_bound(s.skip(1));
    }
}

// ---------------------------------------------------------------- errors

/// Why bytes are not a value.
#[derive(Clone, Copy, Debug, PartialEq, Eq, Structural)]
pub enum DecodeKind {
    /// The bytes end within a value.
    UnexpectedEnd,
    /// A text is not UTF-8.
    InvalidUtf8,
    /// A truth value is neither 0 nor 1.
    InvalidBool,
    /// An option's tag is neither 0 nor 1.
    InvalidTag,
    /// No alternative has this index.
    UnknownVariant,
    /// Bytes follow the value.
    TrailingBytes,
}

/// A failure to decode, with words for the user.
#[derive(Clone, Debug)]
pub struct DecodeError {
    pub kind: DecodeKind,
    pub words: String,
}

/// A failure to decode as a value of mathematics.
pub struct ErrorForm {
    pub kind: DecodeKind,
    pub words: Seq<char>,
}

impl View for DecodeError {
    type V = ErrorForm;

    open spec fn view(&self) -> ErrorForm {
        ErrorForm { kind: self.kind, words: self.words@ }
    }
}

/// The failure on bytes that end within a value, with the words of the decoder.
pub open spec fn cut_short(words: Seq<char>) -> ErrorForm {
    ErrorForm { kind: DecodeKind::UnexpectedEnd, words }
}

/// The failure on a truth value that is neither 0 nor 1.
pub open spec fn bad_bool(found: u8) -> ErrorForm {
    ErrorForm {
        kind: DecodeKind::InvalidBool,
        words: "invalid u8 while decoding bool, expected 0 or 1, found "@ + text::decimal(
            found as nat,
        ),
    }
}

/// The failure on an option's tag that is neither 0 nor 1.
pub open spec fn bad_tag(found: u8) -> ErrorForm {
    ErrorForm {
        kind: DecodeKind::InvalidTag,
        words: "tag for enum is not valid, found "@ + text::decimal(found as nat),
    }
}

/// The failure on an index that is not among the alternatives `expected`.
pub open spec fn no_variant(index: nat, expected: Seq<char>) -> ErrorForm {
    ErrorForm {
        kind: DecodeKind::UnknownVariant,
        words: "invalid value: integer `"@ + text::decimal(index) + "`, expected "@ + expected,
    }
}

/// The failure on bytes behind a value.
pub open spec fn too_long() -> ErrorForm {
    ErrorForm {
        kind: DecodeKind::TrailingBytes,
        words: "Slice had bytes remaining after deserialization"@,
    }
}

// ---------------------------------------------------------------- bincode

/// `bincode::serialize` of a `u8`: the byte.
#[verifier::external_body]
fn encode_u8(v: u8) -> (r: Vec<u8>)
    ensures
        r@ == seq![v],
{
    bincode::serialize(&v).unwrap()
}

/// `bincode::serialize` of a `u16`: its two bytes, little end first.
#[verifier::external_body]
fn encode_u16(v: u16) -> (r: Vec<u8>)
    ensures
        r@ == le(v as nat, 2),
{
    bincode::serialize(&v).unwrap()
}

/// `bincode::serialize` of a `u32`: its four bytes, little end first.
#[verifier::external_body]
fn encode_u32(v: u32) -> (r: Vec<u8>)
    ensures
        r@ == le(v as nat, 4),
{
    bincode::serialize(&v).unwrap()
}

/// `bincode::serialize` of a `u64`: its eight bytes, little end first.
#[verifier::external_body]
fn encode_u64(v: u64) -> (r: Vec<u8>)
    ensures
        r@ == le(v as nat, 8),
{
    bincode::serialize(&v).unwrap()
}

/// `bincode::serialize` of a `bool`: the byte 1 or 0.
#[verifier::external_body]
fn encode_bool(v: bool) -> (r: Vec<u8>)
    ensures
        r@ == seq![if v { 1u8 } else { 0u8 }],
{
    bincode::serialize(&v).unwrap()
}

/// `bincode::serialize` of a slice of bytes: the length as a `u64`, then the bytes.
/// The result has to fit in one allocation.
#[verifier::external_body]
fn encode_bytes(v: &[u8]) -> (r: Vec<u8>)
    requires
        v@.len() + 8 <= isize::MAX,
    ensures
        r@ == le(v@.len(), 8) + v@,
{
    bincode::serialize(v).unwrap()
}

/// `bincode::serialize` of a text: the length of its UTF-8 bytes as a `u64`, then
/// these bytes. The result has to fit in one allocation.
#[verifier::external_body]
fn encode_text(v: &str) -> (r: Vec<u8>)
    requires
        vstd::utf8::encode_utf8(v@).len() + 8 <= isize::MAX,
    ensures
        r@ == le(vstd::utf8::encode_utf8(v@).len(), 8) + vstd::utf8::encode_utf8(v@),
{
    bincode::serialize(v).unwrap()
}

/// The words of the error that `bincode::deserialize` gives for a `u8` in these bytes.
pub uninterp spec fn u8_words(bytes: Seq<u8>) -> Seq<char>;

/// The words of the error that `bincode::deserialize` gives for a `u16` in these bytes.
pub uninterp spec fn u16_words(bytes: Seq<u8>) -> Seq<char>;

/// The words of the error that `bincode::deserialize` gives for a `u32` in these bytes.
pub uninterp spec fn u32_words(bytes: Seq<u8>) -> Seq<char>;

/// The words of the error that `bincode::deserialize` gives for a `u64` in these bytes.
pub uninterp spec fn u64_words(bytes: Seq<u8>) -> Seq<char>;

/// The words of the error that `bincode::deserialize` gives for a `bool` in these bytes.
pub uninterp spec fn bool_words(bytes: Seq<u8>) -> Seq<char>;

/// The words of the error that `bincode::deserialize` gives for a `Vec<u8>` in these bytes.
pub uninterp spec fn bytes_words(bytes: Seq<u8>) -> Seq<char>;

/// The words of the error that `bincode::deserialize` gives for a `String` in these bytes.
pub uninterp spec fn text_words(bytes: Seq<u8>) -> Seq<char>;

/// `bincode::deserialize` of a `u8`, which leaves the bytes behind it alone: it fails
/// on no bytes. The words of the error are named.
#[verifier::external_body]
fn decode_u8(bytes: &[u8]) -> (r: Result<u8, String>)
    ensures
        match r {
            Ok(v) => bytes@.len() >= 1 && v == bytes@[0],
            Err(words) => bytes@.len() < 1 && words@ == u8_words(bytes@),
        },
{
    bincode::deserialize::<u8>(bytes).map_err(|err| err.to_string())
}

/// `bincode::deserialize` of a `u16`, which leaves the bytes behind it alone: it fails
/// on fewer than two bytes. The words of the error are named.
#[verifier::external_body]
fn decode_u16(bytes: &[u8]) -> (r: Result<u16, String>)
    ensures
        match r {
            Ok(v) => bytes@.len() >= 2 && v == le_value(bytes@.take(2)),
            Err(words) => bytes@.len() < 2 && words@ == u16_words(bytes@),
        },
{
    bincode::deserialize::<u16>(bytes).map_err(|err| err.to_string())
}

/// `bincode::deserialize` of a `u32`, which leaves the bytes behind it alone: it fails
/// on fewer than four bytes. The words of the error are named.
#[verifier::external_body]
fn decode_u32(bytes: &[u8]) -> (r: Result<u32, String>)
    ensures
        match r {
            Ok(v) => bytes@.len() >= 4 && v == le_value(bytes@.take(4)),
            Err(words) => bytes@.len() < 4 && words@ == u32_words(bytes@),
        },
{
    bincode::deserialize::<u32>(bytes).map_err(|err| err.to_string())
}

/// `bincode::deserialize` of a `u64`, which leaves the bytes behind it alone: it fails
/// on fewer than eight bytes. The words of the error are named.
#[verifier::external_body]
fn decode_u64(bytes: &[u8]) -> (r: Result<u64, String>)
    ensures
        match r {
            Ok(v) => bytes@.len() >= 8 && v == le_value(bytes@.take(8)),
            Err(words) => bytes@.len() < 8 && words@ == u64_words(bytes@),
        },
{
    bincode::deserialize::<u64>(bytes).map_err(|err| err.to_string())
}

/// `bincode::deserialize` of a `bool`, which leaves the bytes behind it alone: it fails
/// on no bytes and on a byte other than 0 and 1. The words of the error are named; in the
/// second case they are the decoder's sentence with the byte as a number.
#[verifier::external_body]
fn decode_bool(bytes: &[u8]) -> (r: Result<bool, String>)
    ensures
        match r {
            Ok(v) => bytes@.len() >= 1 && bytes@[0] == (if v { 1u8 } else { 0u8 }),
            Err(words) => {
                &&& bytes@.len() < 1 || bytes@[0] > 1
                &&& words@ == bool_words(bytes@)
                &&& bytes@.len() >= 1 ==> words@ == bad_bool(bytes@[0]).words
            },
        },
{
    bincode::deserialize::<bool>(bytes).map_err(|err| err.to_string())
}

/// `bincode::deserialize` of a `Vec<u8>`, which leaves the bytes behind it alone: it
/// fails where the length or the bytes that it announces are cut short. The words of the error are named.
#[verifier::external_body]
fn decode_bytes(bytes: &[u8]) -> (r: Result<Vec<u8>, String>)
    ensures
        match r {
            Ok(v) => take_bytes(bytes@) matches Ok((b, _)) && v@ == b,
            Err(words) => take_bytes(bytes@) is Err && words@ == bytes_words(bytes@),
        },
{
    bincode::deserialize::<Vec<u8>>(bytes).map_err(|err| err.to_string())
}

/// `bincode::deserialize` of a `String`, which leaves the bytes behind it alone: it
/// fails where the length or the bytes that it announces are cut short, and where these
/// bytes are not UTF-8. The words of the error are named.
#[verifier::external_body]
fn decode_text(bytes: &[u8]) -> (r: Result<String, String>)
    ensures
        match r {
            Ok(v) => take_text(bytes@) matches Ok((t, _)) && v@ == t,
            Err(words) => take_text(bytes@) is Err && words@ == text_words(bytes@),
        },
{
    bincode::deserialize::<String>(bytes).map_err(|err| err.to_string())
}

// ---------------------------------------------------------------- grammar

/// The words for a number of `width` bytes that is cut short.
pub open spec fn number_words(s: Seq<u8>, width: nat) -> Seq<char> {
    if width == 1 {
        u8_words(s)
    } else if width == 2 {
        u16_words(s)
    } else if width == 4 {
        u32_words(s)
    } else {
        u64_words(s)
    }
}

/// A number of `width` bytes, and the bytes behind it.
pub open spec fn take_number(s: Seq<u8>, width: nat) -> Result<(nat, Seq<u8>), ErrorForm> {
    if s.len() >= width {
        Ok((le_value(s.take(width as int)), s.skip(width as int)))
    } else {
        Err(cut_short(number_words(s, width)))
    }
}

/// A byte string: its length in eight bytes, then its bytes.
pub open spec fn take_bytes(s: Seq<u8>) -> Result<(Seq<u8>, Seq<u8>), ErrorForm> {
    match take_number(s, 8) {
        Ok((n, rest)) => if rest.len() >= n {
            Ok((rest.take(n as int), rest.skip(n as int)))
        } else {
            Err(cut_short(bytes_words(s)))
        },
        Err(_) => Err(cut_short(bytes_words(s))),
    }
}

/// A text: a byte string that is UTF-8.
pub open spec fn take_text(s: Seq<u8>) -> Result<(Seq<char>, Seq<u8>), ErrorForm> {
    match take_bytes(s) {
        Ok((b, rest)) => if vstd::utf8::valid_utf8(b) {
            Ok((vstd::utf8::decode_utf8(b), rest))
        } else {
            Err(ErrorForm { kind: DecodeKind::InvalidUtf8, words: text_words(s) })
        },
        Err(_) => Err(cut_short(text_words(s))),
    }
}

/// A truth value: the byte 0 or 1.
pub open spec fn take_bool(s: Seq<u8>) -> Result<(bool, Seq<u8>), ErrorForm> {
    if s.len() < 1 {
        Err(cut_short(bool_words(s)))
    } else if s[0] > 1 {
        Err(bad_bool(s[0]))
    } else {
        Ok((s[0] == 1, s.skip(1)))
    }
}

/// An optional text: the byte 0, or the byte 1 and the text.
pub open spec fn take_option(s: Seq<u8>) -> Result<(Option<Seq<char>>, Seq<u8>), ErrorForm> {
    if s.len() < 1 {
        Err(cut_short(u8_words(s)))
    } else if s[0] == 0 {
        Ok((None, s.skip(1)))
    } else if s[0] == 1 {
        match take_text(s.skip(1)) {
            Ok((t, rest)) => Ok((Some(t), rest)),
            Err(e) => Err(e),
        }
    } else {
        Err(bad_tag(s[0]))
    }
}

/// Exactly `n` bytes.
pub open spec fn take_exact(s: Seq<u8>, n: nat) -> Result<(Seq<u8>, Seq<u8>), ErrorForm> {
    if s.len() >= n {
        Ok((s.take(n as int), s.skip(n as int)))
    } else {
        Err(cut_short(u8_words(Seq::empty())))
    }
}

/// The IPv6 address in sixteen bytes.
pub open spec fn v6_of(b: Seq<u8>) -> Ipv6Addr {
    Ipv6Addr {
        s0: (b[0] * 256 + b[1]) as u16,
        s1: (b[2] * 256 + b[3]) as u16,
        s2: (b[4] * 256 + b[5]) as u16,
        s3: (b[6] * 256 + b[7]) as u16,
        s4: (b[8] * 256 + b[9]) as u16,
        s5: (b[10] * 256 + b[11]) as u16,
        s6: (b[12] * 256 + b[13]) as u16,
        s7: (b[14] * 256 + b[15]) as u16,
    }
}

/// The sixteen bytes of an IPv6 address.
pub open spec fn v6_bytes(ip: Ipv6Addr) -> Seq<u8> {
    seq![
        (ip.s0 / 256) as u8,
        (ip.s0 % 256) as u8,
        (ip.s1 / 256) as u8,
        (ip.s1 % 256) as u8,
        (ip.s2 / 256) as u8,
        (ip.s2 % 256) as u8,
        (ip.s3 / 256) as u8,
        (ip.s3 % 256) as u8,
        (ip.s4 / 256) as u8,
        (ip.s4 % 256) as u8,
        (ip.s5 / 256) as u8,
        (ip.s5 % 256) as u8,
        (ip.s6 / 256) as u8,
        (ip.s6 % 256) as u8,
        (ip.s7 / 256) as u8,
        (ip.s7 % 256) as u8,
    ]
}

/// An endpoint: the family's index, the octets of the address, the port. Flow label and
/// scope of an IPv6 endpoint do not travel.
pub open spec fn take_addr(s: Seq<u8>) -> Result<(SocketAddr, Seq<u8>), ErrorForm> {
    match take_number(s, 4) {
        Ok((family, s1)) => if family == 0 {
            match take_exact(s1, 4) {
                Ok((b, s2)) => match take_number(s2, 2) {
                    Ok((port, rest)) => Ok(
                        (
                            SocketAddr::V4(
                                SocketAddrV4 {
                                    ip: Ipv4Addr { a: b[0], b: b[1], c: b[2], d: b[3] },
                                    port: port as u16,
                                },
                            ),
                            rest,
                        ),
                    ),
                    Err(e) => Err(e),
                },
                Err(e) => Err(e),
            }
        } else if family == 1 {
            match take_exact(s1, 16) {
                Ok((b, s2)) => match take_number(s2, 2) {
                    Ok((port, rest)) => Ok(
                        (
                            SocketAddr::V6(
                                SocketAddrV6 {
                                    ip: v6_of(b),
                                    port: port as u16,
                                    flowinfo: 0,
                                    scope_id: 0,
                                },
                            ),
                            rest,
                        ),
                    ),
                    Err(e) => Err(e),
                },
                Err(e) => Err(e),
            }
        } else {
            Err(no_variant(family, "`V4` or `V6`"@))
        },
        Err(e) => Err(e),
    }
}

/// The bytes of a byte string.
pub open spec fn bytes_form(b: Seq<u8>) -> Seq<u8> {
    le(b.len(), 8) + b
}

/// The bytes of a text.
pub open spec fn text_form(t: Seq<char>) -> Seq<u8> {
    bytes_form(vstd::utf8::encode_utf8(t))
}

/// The byte of a truth value.
pub open spec fn bool_form(v: bool) -> Seq<u8> {
    seq![if v { 1u8 } else { 0u8 }]
}

/// The bytes of an optional text.
pub open spec fn option_form(t: Option<Seq<char>>) -> Seq<u8> {
    match t {
        Some(t) => seq![1u8] + text_form(t),
        None => seq![0u8],
    }
}

/// The bytes of an address.
pub open spec fn addr_form(addr: SocketAddr) -> Seq<u8> {
    match addr {
        SocketAddr::V4(v4) => le(0, 4) + (seq![v4.ip.a, v4.ip.b, v4.ip.c, v4.ip.d] + le(
            v4.port as nat,
            2,
        )),
        SocketAddr::V6(v6) => le(1, 4) + (v6_bytes(v6.ip) + le(v6.port as nat, 2)),
    }
}

// ---------------------------------------------------------------- what is written is read

/// What stands behind two parts stands behind the second.
pub proof fn lemma_regrouped(a: Seq<u8>, b: Seq<u8>, rest: Seq<u8>)
    ensures
        (a + b) + rest == a + (b + rest),
{
    assert((a + b) + rest =~= a + (b + rest));
}

/// A number is read as it was written.
pub proof fn lemma_number_read(n: nat, width: nat, rest: Seq<u8>)
    requires
        n < pow256(width),
    ensures
        take_number(le(n, width) + rest, width) == Ok::<(nat, Seq<u8>), ErrorForm>((n, rest)),
{
    law_numbers_survive(n, width);
    let s = le(n, width) + rest;
    assert(s.take(width as int) =~= le(n, width));
    assert(s.skip(width as int) =~= rest);
}

/// Bytes of a known count are read as they were written.
pub proof fn lemma_exact_read(b: Seq<u8>, rest: Seq<u8>)
    ensures
        take_exact(b + rest, b.len()) == Ok::<(Seq<u8>, Seq<u8>), ErrorForm>((b, rest)),
{
    let s = b + rest;
    assert(s.take(b.len() as int) =~= b);
    assert(s.skip(b.len() as int) =~= rest);
}

/// A byte string is read as it was written.
pub proof fn lemma_bytes_read(b: Seq<u8>, rest: Seq<u8>)
    requires
        b.len() <= u64::MAX,
    ensures
        take_bytes(bytes_form(b) + rest) == Ok::<(Seq<u8>, Seq<u8>), ErrorForm>((b, rest)),
{
    lemma_pow256();
    lemma_number_read(b.len(), 8, b + rest);
    assert(bytes_form(b) + rest =~= le(b.len(), 8) + (b + rest));
    assert((b + rest).take(b.len() as int) =~= b);
    assert((b + rest).skip(b.len() as int) =~= rest);
}

/// A text is read as it was written.
pub proof fn lemma_text_read(t: Seq<char>, rest: Seq<u8>)
    requires
        vstd::utf8::encode_utf8(t).len() <= u64::MAX,
    ensures
        take_text(text_form(t) + rest) == Ok::<(Seq<char>, Seq<u8>), ErrorForm>((t, rest)),
{
    vstd::utf8::encode_utf8_valid_utf8(t);
    vstd::utf8::encode_utf8_decode_utf8(t);
    lemma_bytes_read(vstd::utf8::encode_utf8(t), rest);
}

/// A truth value is read as it was written.
pub proof fn lemma_bool_read(v: bool, rest: Seq<u8>)
    ensures
        take_bool(bool_form(v) + rest) == Ok::<(bool, Seq<u8>), ErrorForm>((v, rest)),
{
    assert((bool_form(v) + rest).skip(1) =~= rest);
}

/// An optional text is read as it was written.
pub proof fn lemma_option_read(t: Option<Seq<char>>, rest: Seq<u8>)
    requires
        t matches Some(t) ==> vstd::utf8::encode_utf8(t).len() <= u64::MAX,
    ensures
        take_option(option_form(t) + rest) == Ok::<(Option<Seq<char>>, Seq<u8>), ErrorForm>(
            (t, rest),
        ),
{
    let s = option_form(t) + rest;
    match t {
        Some(u) => {
            lemma_text_read(u, rest);
            assert(s.skip(1) =~= text_form(u) + rest);
        },
        None => {
            assert(s.skip(1) =~= rest);
        },
    }
}

/// The endpoint that arrives when this one is sent: without flow label and scope.
pub open spec fn addr_sent(addr: SocketAddr) -> SocketAddr {
    match addr {
        SocketAddr::V4(_) => addr,
        SocketAddr::V6(v6) => SocketAddr::V6(SocketAddrV6 { flowinfo: 0, scope_id: 0, ..v6 }),
    }
}

proof fn lemma_family_read(family: nat, octets: Seq<u8>, port: u16, rest: Seq<u8>)
    requires
        family <= 1,
        octets.len() == (if family == 0 {
            4nat
        } else {
            16nat
        }),
    ensures
        ({
            let s = le(family, 4) + (octets + le(port as nat, 2)) + rest;
            let s1 = octets + (le(port as nat, 2) + rest);
            let s2 = le(port as nat, 2) + rest;
            &&& take_number(s, 4) == Ok::<(nat, Seq<u8>), ErrorForm>((family, s1))
            &&& take_exact(s1, octets.len()) == Ok::<(Seq<u8>, Seq<u8>), ErrorForm>((octets, s2))
            &&& take_number(s2, 2) == Ok::<(nat, Seq<u8>), ErrorForm>((port as nat, rest))
        }),
{
    lemma_pow256();
    let number = le(port as nat, 2);
    assert(le(family, 4) + (octets + number) + rest =~= le(family, 4) + (octets + (number + rest)));
    lemma_number_read(family, 4, octets + (number + rest));
    lemma_exact_read(octets, number + rest);
    lemma_number_read(port as nat, 2, rest);
}

proof fn lemma_group_read(group: u16)
    ensures
        (((group / 256) as u8) * 256 + ((group % 256) as u8)) as u16 == group,
{
}

proof fn lemma_octets_read(ip: Ipv6Addr)
    ensures
        v6_bytes(ip).len() == 16,
        v6_of(v6_bytes(ip)) == ip,
{
    lemma_group_read(ip.s0);
    lemma_group_read(ip.s1);
    lemma_group_read(ip.s2);
    lemma_group_read(ip.s3);
    lemma_group_read(ip.s4);
    lemma_group_read(ip.s5);
    lemma_group_read(ip.s6);
    lemma_group_read(ip.s7);
}

/// An address is read as it was written, but for flow label and scope.
pub proof fn lemma_addr_read(addr: SocketAddr, rest: Seq<u8>)
    ensures
        take_addr(addr_form(addr) + rest) == Ok::<(SocketAddr, Seq<u8>), ErrorForm>(
            (addr_sent(addr), rest),
        ),
{
    match addr {
        SocketAddr::V4(v4) => {
            lemma_family_read(0, seq![v4.ip.a, v4.ip.b, v4.ip.c, v4.ip.d], v4.port, rest);
        },
        SocketAddr::V6(v6) => {
            lemma_octets_read(v6.ip);
            lemma_family_read(1, v6_bytes(v6.ip), v6.port, rest);
        },
    }
}

// ---------------------------------------------------------------- writing

/// Appends a number of one byte.
pub fn put_u8(out: &mut Vec<u8>, v: u8)
    ensures
        final(out)@ == old(out)@ + seq![v],
        final(out)@ == old(out)@ + le(v as nat, 1),
{
    let mut part = encode_u8(v);
    out.append(&mut part);
    assert(le(v as nat / 256, 0) =~= Seq::<u8>::empty());
    assert(le(v as nat, 1) =~= seq![v]);
}

/// Appends a number of two bytes.
pub fn put_u16(out: &mut Vec<u8>, v: u16)
    ensures
        final(out)@ == old(out)@ + le(v as nat, 2),
{
    let mut part = encode_u16(v);
    out.append(&mut part);
}

/// Appends a number of four bytes.
pub fn put_u32(out: &mut Vec<u8>, v: u32)
    ensures
        final(out)@ == old(out)@ + le(v as nat, 4),
{
    let mut part = encode_u32(v);
    out.append(&mut part);
}

/// Appends a number of eight bytes.
pub fn put_u64(out: &mut Vec<u8>, v: u64)
    ensures
        final(out)@ == old(out)@ + le(v as nat, 8),
{
    let mut part = encode_u64(v);
    out.append(&mut part);
}

/// Appends a truth value.
pub fn put_bool(out: &mut Vec<u8>, v: bool)
    ensures
        final(out)@ == old(out)@ + bool_form(v),
{
    let mut part = encode_bool(v);
    out.append(&mut part);
}

/// Appends a byte string.
pub fn put_bytes(out: &mut Vec<u8>, v: &[u8])
    requires
        bytes_form(v@).len() <= isize::MAX,
    ensures
        final(out)@ == old(out)@ + bytes_form(v@),
{
    proof {
        lemma_le_len(v@.len(), 8);
    }
    let mut part = encode_bytes(v);
    out.append(&mut part);
}

/// Appends a text.
pub fn put_text(out: &mut Vec<u8>, v: &str)
    requires
        text_form(v@).len() <= isize::MAX,
    ensures
        final(out)@ == old(out)@ + text_form(v@),
{
    proof {
        lemma_le_len(vstd::utf8::encode_utf8(v@).len(), 8);
    }
    let mut part = encode_text(v);
    out.append(&mut part);
}

/// Appends an optional text.
pub fn put_option(out: &mut Vec<u8>, v: &Option<String>)
    requires
        option_form(text::text_in(*v)).len() <= isize::MAX,
    ensures
        final(out)@ == old(out)@ + option_form(text::text_in(*v)),
{
    match v {
        Some(t) => {
            put_u8(out, 1);
            put_text(out, t.as_str());
            assert(out@ =~= old(out)@ + option_form(text::text_in(*v)));
        },
        None => {
            put_u8(out, 0);
        },
    }
}

/// Appends bytes without their length.
pub fn put_exact(out: &mut Vec<u8>, v: &[u8])
    ensures
        final(out)@ == old(out)@ + v@,
{
    let mut i: usize = 0;
    let ghost start = out@;
    while i < v.len()
        invariant
            i <= v@.len(),
            out@ == start + v@.take(i as int),
        decreases v@.len() - i,
    {
        put_u8(out, v[i]);
        assert(out@ =~= start + v@.take(i + 1));
        i += 1;
    }
    assert(v@.take(i as int) =~= v@);
}

/// Appends an endpoint.
pub fn put_addr(out: &mut Vec<u8>, addr: &SocketAddr)
    ensures
        final(out)@ == old(out)@ + addr_form(*addr),
{
    match addr {
        SocketAddr::V4(v4) => {
            put_u32(out, 0);
            let octets: [u8; 4] = [v4.ip.a, v4.ip.b, v4.ip.c, v4.ip.d];
            put_exact(out, octets.as_slice());
            put_u16(out, v4.port);
            assert(octets@ =~= seq![v4.ip.a, v4.ip.b, v4.ip.c, v4.ip.d]);
        },
        SocketAddr::V6(v6) => {
            put_u32(out, 1);
            let ip = v6.ip;
            let octets: [u8; 16] = [
                (ip.s0 / 256) as u8,
                (ip.s0 % 256) as u8,
                (ip.s1 / 256) as u8,
                (ip.s1 % 256) as u8,
                (ip.s2 / 256) as u8,
                (ip.s2 % 256) as u8,
                (ip.s3 / 256) as u8,
                (ip.s3 % 256) as u8,
                (ip.s4 / 256) as u8,
                (ip.s4 % 256) as u8,
                (ip.s5 / 256) as u8,
                (ip.s5 % 256) as u8,
                (ip.s6 / 256) as u8,
                (ip.s6 % 256) as u8,
                (ip.s7 / 256) as u8,
                (ip.s7 % 256) as u8,
            ];
            put_exact(out, octets.as_slice());
            put_u16(out, v6.port);
            assert(octets@ =~= v6_bytes(ip));
        },
    }
    assert(out@ =~= old(out)@ + addr_form(*addr));
}

// ---------------------------------------------------------------- reading

/// A position in bytes that are being read.
pub struct Reader<'a> {
    pub data: &'a [u8],
    pub at: usize,
}

impl<'a> Reader<'a> {
    /// The position lies within the bytes or at their end.
    pub open spec fn wf(self) -> bool {
        self.at <= self.data@.len()
    }

    /// The bytes still to be read.
    pub open spec fn rest(self) -> Seq<u8> {
        self.data@.skip(self.at as int)
    }

    /// At the beginning of the bytes.
    pub fn new(data: &'a [u8]) -> (r: Reader<'a>)
        ensures
            r.wf(),
            r.data == data,
            r.rest() == data@,
    {
        let r = Reader { data, at: 0 };
        assert(r.rest() =~= data@);
        r
    }

    fn remaining(&self) -> (r: &'a [u8])
        requires
            self.wf(),
        ensures
            r@ == self.rest(),
    {
        let size: usize = self.data.len();
        let r = vstd::slice::slice_subrange(self.data, self.at, size);
        assert(r@ =~= self.rest());
        r
    }

    fn advance(&mut self, n: usize)
        requires
            old(self).wf(),
            n <= old(self).rest().len(),
        ensures
            final(self).wf(),
            final(self).data == old(self).data,
            final(self).rest() == old(self).rest().skip(n as int),
    {
        let size: usize = self.data.len();
        self.at = self.at + n;
        assert(self.rest() =~= old(self).rest().skip(n as int));
    }

    /// Whether all bytes are read.
    pub fn is_finished(&self) -> (r: bool)
        requires
            self.wf(),
        ensures
            r == (self.rest().len() == 0),
    {
        self.at == self.data.len()
    }

    /// Reads a number of one byte.
    pub fn get_u8(&mut self) -> (r: Result<u8, DecodeError>)
        requires
            old(self).wf(),
        ensures
            final(self).wf(),
            final(self).data == old(self).data,
            match r {
                Ok(v) => take_number(old(self).rest(), 1) == Ok::<(nat, Seq<u8>), ErrorForm>(
                    (v as nat, final(self).rest()),
                ) && v == old(self).rest()[0],
                Err(e) => take_number(old(self).rest(), 1) == Err::<(nat, Seq<u8>), ErrorForm>(
                    e@,
                ),
            },
    {
        match decode_u8(self.remaining()) {
            Ok(v) => {
                proof {
                    let one = self.rest().take(1);
                    assert(one.skip(1) =~= Seq::<u8>::empty());
                    assert(le_value(one.skip(1)) == 0);
                    assert(le_value(one) == one[0] as nat);
                }
                self.advance(1);
                Ok(v)
            },
            Err(words) => Err(DecodeError { kind: DecodeKind::UnexpectedEnd, words }),
        }
    }

    /// Reads a number of two bytes.
    pub fn get_u16(&mut self) -> (r: Result<u16, DecodeError>)
        requires
            old(self).wf(),
        ensures
            final(self).wf(),
            final(self).data == old(self).data,
            match r {
                Ok(v) => take_number(old(self).rest(), 2) == Ok::<(nat, Seq<u8>), ErrorForm>(
                    (v as nat, final(self).rest()),
                ),
                Err(e) => take_number(old(self).rest(), 2) == Err::<(nat, Seq<u8>), ErrorForm>(
                    e@,
                ),
            },
    {
        match decode_u16(self.remaining()) {
            Ok(v) => {
                self.advance(2);
                Ok(v)
            },
            Err(words) => Err(DecodeError { kind: DecodeKind::UnexpectedEnd, words }),
        }
    }

    /// Reads a number of four bytes.
    pub fn get_u32(&mut self) -> (r: Result<u32, DecodeError>)
        requires
            old(self).wf(),
        ensures
            final(self).wf(),
            final(self).data == old(self).data,
            match r {
                Ok(v) => take_number(old(self).rest(), 4) == Ok::<(nat, Seq<u8>), ErrorForm>(
                    (v as nat, final(self).rest()),
                ),
                Err(e) => take_number(old(self).rest(), 4) == Err::<(nat, Seq<u8>), ErrorForm>(
                    e@,
                ),
            },
    {
        match decode_u32(self.remaining()) {
            Ok(v) => {
                self.advance(4);
                Ok(v)
            },
            Err(words) => Err(DecodeError { kind: DecodeKind::UnexpectedEnd, words }),
        }
    }

    /// Reads a number of eight bytes.
    pub fn get_u64(&mut self) -> (r: Result<u64, DecodeError>)
        requires
            old(self).wf(),
        ensures
            final(self).wf(),
            final(self).data == old(self).data,
            match r {
                Ok(v) => take_number(old(self).rest(), 8) == Ok::<(nat, Seq<u8>), ErrorForm>(
                    (v as nat, final(self).rest()),
                ),
                Err(e) => take_number(old(self).rest(), 8) == Err::<(nat, Seq<u8>), ErrorForm>(
                    e@,
                ),
            },
    {
        match decode_u64(self.remaining()) {
            Ok(v) => {
                self.advance(8);
                Ok(v)
            },
            Err(words) => Err(DecodeError { kind: DecodeKind::UnexpectedEnd, words }),
        }
    }

    /// Reads a truth value.
    pub fn get_bool(&mut self) -> (r: Result<bool, DecodeError>)
        requires
            old(self).wf(),
        ensures
            final(self).wf(),
            final(self).data == old(self).data,
            match r {
                Ok(v) => take_bool(old(self).rest()) == Ok::<(bool, Seq<u8>), ErrorForm>(
                    (v, final(self).rest()),
                ),
                Err(e) => take_bool(old(self).rest()) == Err::<(bool, Seq<u8>), ErrorForm>(e@),
            },
    {
        match decode_bool(self.remaining()) {
            Ok(v) => {
                self.advance(1);
                Ok(v)
            },
            Err(words) => {
                if self.is_finished() {
                    Err(DecodeError { kind: DecodeKind::UnexpectedEnd, words })
                } else {
                    Err(DecodeError { kind: DecodeKind::InvalidBool, words })
                }
            },
        }
    }

    /// Reads a byte string.
    pub fn get_bytes(&mut self) -> (r: Result<Vec<u8>, DecodeError>)
        requires
            old(self).wf(),
        ensures
            final(self).wf(),
            final(self).data == old(self).data,
            match r {
                Ok(v) => take_bytes(old(self).rest()) == Ok::<(Seq<u8>, Seq<u8>), ErrorForm>(
                    (v@, final(self).rest()),
                ),
                Err(e) => take_bytes(old(self).rest()) == Err::<(Seq<u8>, Seq<u8>), ErrorForm>(
                    e@,
                ),
            },
    {
        match decode_bytes(self.remaining()) {
            Ok(v) => {
                self.advance(8);
                self.advance(v.len());
                Ok(v)
            },
            Err(words) => Err(DecodeError { kind: DecodeKind::UnexpectedEnd, words }),
        }
    }

    /// Reads a text.
    pub fn get_text(&mut self) -> (r: Result<String, DecodeError>)
        requires
            old(self).wf(),
        ensures
            final(self).wf(),
            final(self).data == old(self).data,
            match r {
                Ok(v) => take_text(old(self).rest()) == Ok::<(Seq<char>, Seq<u8>), ErrorForm>(
                    (v@, final(self).rest()),
                ),
                Err(e) => take_text(old(self).rest()) == Err::<(Seq<char>, Seq<u8>), ErrorForm>(
                    e@,
                ),
            },
    {
        let text = decode_text(self.remaining());
        let bytes = self.get_bytes();
        match text {
            Ok(v) => Ok(v),
            Err(words) => {
                match bytes {
                    Ok(_) => Err(DecodeError { kind: DecodeKind::InvalidUtf8, words }),
                    Err(_) => Err(DecodeError { kind: DecodeKind::UnexpectedEnd, words }),
                }
            },
        }
    }

    /// Reads an optional text.
    pub fn get_option(&mut self) -> (r: Result<Option<String>, DecodeError>)
        requires
            old(self).wf(),
        ensures
            final(self).wf(),
            final(self).data == old(self).data,
            match r {
                Ok(v) => take_option(old(self).rest()) == Ok::<
                    (Option<Seq<char>>, Seq<u8>),
                    ErrorForm,
                >((text::text_in(v), final(self).rest())),
                Err(e) => take_option(old(self).rest()) == Err::<
                    (Option<Seq<char>>, Seq<u8>),
                    ErrorForm,
                >(e@),
            },
    {
        match self.get_u8() {
            Ok(tag) => {
                if tag == 0 {
                    Ok(None)
                } else if tag == 1 {
                    match self.get_text() {
                        Ok(t) => Ok(Some(t)),
                        Err(e) => Err(e),
                    }
                } else {
                    let mut words = "tag for enum is not valid, found ".to_owned();
                    words.append(text::number_text(tag as u64).as_str());
                    Err(DecodeError { kind: DecodeKind::InvalidTag, words })
                }
            },
            Err(e) => Err(e),
        }
    }

    /// Reads exactly `n` bytes.
    pub fn get_exact(&mut self, n: usize) -> (r: Result<Vec<u8>, DecodeError>)
        requires
            old(self).wf(),
        ensures
            final(self).wf(),
            final(self).data == old(self).data,
            match r {
                Ok(v) => take_exact(old(self).rest(), n as nat) == Ok::<
                    (Seq<u8>, Seq<u8>),
                    ErrorForm,
                >((v@, final(self).rest())),
                Err(e) => take_exact(old(self).rest(), n as nat) == Err::<
                    (Seq<u8>, Seq<u8>),
                    ErrorForm,
                >(e@),
            },
    {
        let ghost start = self.rest();
        let mut v: Vec<u8> = Vec::new();
        let mut i: usize = 0;
        while i < n
            invariant
                i <= n,
                self.wf(),
                self.data == old(self).data,
                start == old(self).rest(),
                i <= start.len(),
                v@ == start.take(i as int),
                self.rest() == start.skip(i as int),
            decreases n - i,
        {
            match self.get_u8() {
                Ok(b) => {
                    v.push(b);
                    assert(v@ =~= start.take(i + 1));
                    assert(self.rest() =~= start.skip(i + 1));
                },
                Err(e) => {
                    assert(start.skip(i as int) =~= Seq::<u8>::empty());
                    return Err(e);
                },
            }
            i += 1;
        }
        Ok(v)
    }

    /// Reads an endpoint.
    pub fn get_addr(&mut self) -> (r: Result<SocketAddr, DecodeError>)
        requires
            old(self).wf(),
        ensures
            final(self).wf(),
            final(self).data == old(self).data,
            match r {
                Ok(v) => take_addr(old(self).rest()) == Ok::<(SocketAddr, Seq<u8>), ErrorForm>(
                    (v, final(self).rest()),
                ),
                Err(e) => take_addr(old(self).rest()) == Err::<(SocketAddr, Seq<u8>), ErrorForm>(
                    e@,
                ),
            },
    {
        let family: u32 = match self.get_u32() {
            Ok(v) => v,
            Err(e) => {
                return Err(e);
            },
        };
        if family > 1 {
            return Err(unknown_variant(family, "`V4` or `V6`"));
        }
        let size: usize = if family == 0 {
            4
        } else {
            16
        };
        let b = match self.get_exact(size) {
            Ok(v) => v,
            Err(e) => {
                return Err(e);
            },
        };
        let port: u16 = match self.get_u16() {
            Ok(v) => v,
            Err(e) => {
                return Err(e);
            },
        };
        if family == 0 {
            Ok(
                SocketAddr::V4(
                    SocketAddrV4 { ip: Ipv4Addr { a: b[0], b: b[1], c: b[2], d: b[3] }, port },
                ),
            )
        } else {
            let ip = Ipv6Addr {
                s0: b[0] as u16 * 256 + b[1] as u16,
                s1: b[2] as u16 * 256 + b[3] as u16,
                s2: b[4] as u16 * 256 + b[5] as u16,
                s3: b[6] as u16 * 256 + b[7] as u16,
                s4: b[8] as u16 * 256 + b[9] as u16,
                s5: b[10] as u16 * 256 + b[11] as u16,
                s6: b[12] as u16 * 256 + b[13] as u16,
                s7: b[14] as u16 * 256 + b[15] as u16,
            };
            Ok(SocketAddr::V6(SocketAddrV6 { ip, port, flowinfo: 0, scope_id: 0 }))
        }
    }
}

/// The error for an index that is not among the alternatives `expected`.
pub fn unknown_variant(index: u32, expected: &str) -> (r: DecodeError)
    ensures
        r@ == no_variant(index as nat, expected@),
{
    let mut words = "invalid value: integer `".to_owned();
    words.append(text::number_text(index as u64).as_str());
    words.append("`, expected ");
    words.append(expected);
    DecodeError { kind: DecodeKind::UnknownVariant, words }
}

/// The error for bytes behind a value.
pub fn trailing_bytes() -> (r: DecodeError)
    ensures
        r@ == too_long(),
{
    DecodeError {
        kind: DecodeKind::TrailingBytes,
        words: "Slice had bytes remaining after deserialization".to_owned(),
    }
}

// ---------------------------------------------------------------- laws

/// A number is written byte by byte, the low one first, in as many bytes as its kind has.
pub proof fn law_numbers_are_written_low_byte_first(n: nat)
    ensures
        le(n, 1) == seq![
            (n % 256) as u8,
        ],
        le(n, 2) == seq![
            (n % 256) as u8,
            (n / 256 % 256) as u8,
        ],
        le(n, 4) == seq![
            (n % 256) as u8,
            (n / 256 % 256) as u8,
            (n / 256 / 256 % 256) as u8,
            (n / 256 / 256 / 256 % 256) as u8,
        ],
        le(n, 8) == seq![
            (n % 256) as u8,
            (n / 256 % 256) as u8,
            (n / 256 / 256 % 256) as u8,
            (n / 256 / 256 / 256 % 256) as u8,
            (n / 256 / 256 / 256 / 256 % 256) as u8,
            (n / 256 / 256 / 256 / 256 / 256 % 256) as u8,
            (n / 256 / 256 / 256 / 256 / 256 / 256 % 256) as u8,
            (n / 256 / 256 / 256 / 256 / 256 / 256 / 256 % 256) as u8,
        ],
{
    reveal_with_fuel(le, 9);
}

/// A number is read from as many bytes as its kind has, the low one first, and the bytes behind it are
/// left; where there are fewer, the bytes end too early.
pub proof fn law_numbers_are_read_low_byte_first(s: Seq<u8>)
    ensures
        s.len() >= 1 ==> take_number(s, 1) == Ok::<(nat, Seq<u8>), ErrorForm>(
            ((s[0]) as nat, s.skip(1)),
        ),
        s.len() >= 2 ==> take_number(s, 2) == Ok::<(nat, Seq<u8>), ErrorForm>(
            ((s[0] + 0x100 * s[1]) as nat, s.skip(2)),
        ),
        s.len() >= 4 ==> take_number(s, 4) == Ok::<(nat, Seq<u8>), ErrorForm>(
            (
                (s[0] + 0x100 * s[1] + 0x10000 * s[2] + 0x1000000 * s[3]) as nat,
                s.skip(4),
            ),
        ),
        s.len() >= 8 ==> take_number(s, 8) == Ok::<(nat, Seq<u8>), ErrorForm>(
            (
                (s[0] + 0x100 * s[1] + 0x10000 * s[2] + 0x1000000 * s[3]
                    + 0x1_0000_0000 * s[4] + 0x100_0000_0000 * s[5] + 0x1_0000_0000_0000 * s[6]
                    + 0x100_0000_0000_0000 * s[7]) as nat,
                s.skip(8),
            ),
        ),
        s.len() < 1 ==> take_number(s, 1) == Err::<(nat, Seq<u8>), ErrorForm>(
            ErrorForm { kind: DecodeKind::UnexpectedEnd, words: u8_words(s) },
        ),
        s.len() < 2 ==> take_number(s, 2) == Err::<(nat, Seq<u8>), ErrorForm>(
            ErrorForm { kind: DecodeKind::UnexpectedEnd, words: u16_words(s) },
        ),
        s.len() < 4 ==> take_number(s, 4) == Err::<(nat, Seq<u8>), ErrorForm>(
            ErrorForm { kind: DecodeKind::UnexpectedEnd, words: u32_words(s) },
        ),
        s.len() < 8 ==> take_number(s, 8) == Err::<(nat, Seq<u8>), ErrorForm>(
            ErrorForm { kind: DecodeKind::UnexpectedEnd, words: u64_words(s) },
        ),
{
    lemma_value_of(s, 1);
    lemma_value_of(s, 2);
    lemma_value_of(s, 4);
    lemma_value_of(s, 8);
}

proof fn lemma_value_of(s: Seq<u8>, n: int)
    requires
        n == 1 || n == 2 || n == 4 || n == 8,
    ensures
        s.len() >= n && n == 1 ==> le_value(s.take(n)) == s[0],
        s.len() >= n && n == 2 ==> le_value(s.take(n)) == s[0] + 0x100 * s[1],
        s.len() >= n && n == 4 ==> le_value(s.take(n)) == s[0] + 0x100 * s[1] + 0x10000 * s[2]
            + 0x1000000 * s[3],
        s.len() >= n && n == 8 ==> le_value(s.take(n)) == s[0] + 0x100 * s[1] + 0x10000 * s[2]
            + 0x1000000 * s[3]
            + 0x1_0000_0000 * s[4] + 0x100_0000_0000 * s[5] + 0x1_0000_0000_0000 * s[6]
            + 0x100_0000_0000_0000 * s[7],
{
    if s.len() >= n {
        let t = s.take(n);
        lemma_value_step(t);
        if n >= 2 {
            lemma_value_step(t.skip(1));
        }
        if n >= 4 {
            lemma_value_step(t.skip(1).skip(1));
            lemma_value_step(t.skip(1).skip(1).skip(1));
        }
        if n >= 8 {
            let u = t.skip(1).skip(1).skip(1).skip(1);
            lemma_value_step(u);
            lemma_value_step(u.skip(1));
            lemma_value_step(u.skip(1).skip(1));
            lemma_value_step(u.skip(1).skip(1).skip(1));
        }
    }
}

proof fn lemma_value_step(s: Seq<u8>)
    requires
        s.len() > 0,
    ensures
        le_value(s) == s[0] + 256 * le_value(s.skip(1)),
        s.len() == 1 ==> le_value(s) == s[0],
{
    if s.len() == 1 {
        assert(le_value(s.skip(1)) == 0);
    }
}

/// A number of one byte in four.
pub proof fn lemma_small_number(n: nat)
    requires
        n < 256,
    ensures
        le(n, 4) == seq![n as u8, 0, 0, 0],
{
    law_numbers_are_written_low_byte_first(n);
    assert(le(n, 4) =~= seq![n as u8, 0, 0, 0]);
}

/// A byte string is written behind its length, a text as its bytes, a truth value as a byte, and an
/// optional text behind a byte that tells whether it is there.
pub proof fn law_values_are_written(b: Seq<u8>, t: Seq<char>)
    ensures
        bytes_form(b) == le(b.len(), 8) + b,
        text_form(t) == le(vstd::utf8::encode_utf8(t).len(), 8) + vstd::utf8::encode_utf8(t),
        bool_form(false) == seq![0u8],
        bool_form(true) == seq![1u8],
        option_form(None) == seq![0u8],
        option_form(Some(t)) == seq![1u8] + text_form(t),
{
}

/// An address is written by its family in four bytes, its octets in their order, and its port.
pub proof fn law_addresses_are_written(
    a: Ipv4Addr,
    b: Ipv6Addr,
    port: u16,
    flowinfo: u32,
    scope_id: u32,
)
    ensures
        addr_form(SocketAddr::V4(SocketAddrV4 { ip: a, port })) == seq![
            0u8,
            0,
            0,
            0,
            a.a,
            a.b,
            a.c,
            a.d,
            (port % 256) as u8,
            (port / 256) as u8,
        ],
        addr_form(SocketAddr::V6(SocketAddrV6 { ip: b, port, flowinfo, scope_id })) == seq![
            1u8,
            0,
            0,
            0,
            (b.s0 / 256) as u8,
            (b.s0 % 256) as u8,
            (b.s1 / 256) as u8,
            (b.s1 % 256) as u8,
            (b.s2 / 256) as u8,
            (b.s2 % 256) as u8,
            (b.s3 / 256) as u8,
            (b.s3 % 256) as u8,
            (b.s4 / 256) as u8,
            (b.s4 % 256) as u8,
            (b.s5 / 256) as u8,
            (b.s5 % 256) as u8,
            (b.s6 / 256) as u8,
            (b.s6 % 256) as u8,
            (b.s7 / 256) as u8,
            (b.s7 % 256) as u8,
            (port % 256) as u8,
            (port / 256) as u8,
        ],
        addr_sent(SocketAddr::V4(SocketAddrV4 { ip: a, port })) == SocketAddr::V4(
            SocketAddrV4 { ip: a, port },
        ),
        addr_sent(SocketAddr::V6(SocketAddrV6 { ip: b, port, flowinfo, scope_id }))
            == SocketAddr::V6(SocketAddrV6 { ip: b, port, flowinfo: 0, scope_id: 0 }),
{
    law_numbers_are_written_low_byte_first(0);
    law_numbers_are_written_low_byte_first(1);
    law_numbers_are_written_low_byte_first(port as nat);
    assert(port as nat / 256 % 256 == port / 256);
    assert(addr_form(SocketAddr::V4(SocketAddrV4 { ip: a, port })) =~= seq![
        0u8,
        0,
        0,
        0,
        a.a,
        a.b,
        a.c,
        a.d,
        (port % 256) as u8,
        (port / 256) as u8,
    ]);
    let six = addr_form(SocketAddr::V6(SocketAddrV6 { ip: b, port, flowinfo, scope_id }));
    assert(six =~= seq![1u8, 0, 0, 0] + v6_bytes(b) + seq![(port % 256) as u8, (port / 256) as u8]);
}

/// A number that was read is written as the bytes that it was read from.
pub proof fn law_read_numbers_are_written_back(s: Seq<u8>, width: nat)
    requires
        take_number(s, width) is Ok,
    ensures
        ({
            let (n, rest) = take_number(s, width)->Ok_0;
            &&& s == le(n, width) + rest
            &&& n < pow256(width)
            &&& rest.len() + width == s.len()
        }),
{
    lemma_written_back(s.take(width as int));
    lemma_le_value_bound(s.take(width as int));
    assert(s =~= s.take(width as int) + s.skip(width as int));
}

proof fn lemma_written_back(s: Seq<u8>)
    ensures
        le(le_value(s), s.len()) == s,
    decreases s.len(),
{
    if s.len() > 0 {
        lemma_written_back(s.skip(1));
        let n = le_value(s);
        let high = le_value(s.skip(1));
        assert(n == s[0] + 256 * high);
        assert(n % 256 == s[0] && n / 256 == high);
        assert(le(n, s.len()) =~= seq![s[0]] + le(high, s.skip(1).len()));
        assert(s =~= seq![s[0]] + s.skip(1));
    }
}

/// Whatever is read as a byte string, a text, a truth value, an optional text, a row of bytes or an
/// address is written as the bytes that it was read from.
pub proof fn law_read_values_are_written_back(s: Seq<u8>, n: nat)
    ensures
        take_bytes(s) is Ok ==> s == bytes_form(take_bytes(s)->Ok_0.0) + take_bytes(s)->Ok_0.1,
        take_text(s) is Ok ==> s == text_form(take_text(s)->Ok_0.0) + take_text(s)->Ok_0.1,
        take_bool(s) is Ok ==> s == bool_form(take_bool(s)->Ok_0.0) + take_bool(s)->Ok_0.1,
        take_option(s) is Ok ==> s == option_form(take_option(s)->Ok_0.0) + take_option(s)->Ok_0.1,
        take_exact(s, n) is Ok ==> take_exact(s, n)->Ok_0.0.len() == n && s == take_exact(
            s,
            n,
        )->Ok_0.0 + take_exact(s, n)->Ok_0.1,
        take_addr(s) is Ok ==> s == addr_form(take_addr(s)->Ok_0.0) + take_addr(s)->Ok_0.1,
{
    lemma_bytes_written_back(s);
    lemma_text_written_back(s);
    lemma_bool_written_back(s);
    lemma_option_written_back(s);
    lemma_exact_written_back(s, n);
    lemma_addr_written_back(s);
}

/// A byte string that was read is written as the bytes that it was read from.
pub proof fn lemma_bytes_written_back(s: Seq<u8>)
    ensures
        take_bytes(s) is Ok ==> s == bytes_form(take_bytes(s)->Ok_0.0) + take_bytes(s)->Ok_0.1,
{
    if take_bytes(s) is Ok {
        law_read_numbers_are_written_back(s, 8);
        let (n, rest) = take_number(s, 8)->Ok_0;
        let b = rest.take(n as int);
        assert(rest =~= b + rest.skip(n as int));
        lemma_regrouped(le(n, 8), b, rest.skip(n as int));
    }
}

/// A text that was read is written as the bytes that it was read from.
pub proof fn lemma_text_written_back(s: Seq<u8>)
    ensures
        take_text(s) is Ok ==> s == text_form(take_text(s)->Ok_0.0) + take_text(s)->Ok_0.1,
{
    if take_text(s) is Ok {
        lemma_bytes_written_back(s);
        vstd::utf8::decode_utf8_encode_utf8(take_bytes(s)->Ok_0.0);
    }
}

/// A truth value that was read is written as the byte that it was read from.
pub proof fn lemma_bool_written_back(s: Seq<u8>)
    ensures
        take_bool(s) is Ok ==> s == bool_form(take_bool(s)->Ok_0.0) + take_bool(s)->Ok_0.1,
{
    if take_bool(s) is Ok {
        assert(s =~= bool_form(take_bool(s)->Ok_0.0) + s.skip(1));
    }
}

/// An optional text that was read is written as the bytes that it was read from.
pub proof fn lemma_option_written_back(s: Seq<u8>)
    ensures
        take_option(s) is Ok ==> s == option_form(take_option(s)->Ok_0.0) + take_option(s)->Ok_0.1,
{
    if take_option(s) is Ok {
        if s[0] == 0 {
            assert(s =~= seq![0u8] + s.skip(1));
        } else {
            lemma_text_written_back(s.skip(1));
            let (t, rest) = take_text(s.skip(1))->Ok_0;
            assert(s =~= seq![1u8] + s.skip(1));
            lemma_regrouped(seq![1u8], text_form(t), rest);
        }
    }
}

/// A row of bytes that was read is what stood there.
pub proof fn lemma_exact_written_back(s: Seq<u8>, n: nat)
    ensures
        take_exact(s, n) is Ok ==> take_exact(s, n)->Ok_0.0.len() == n && s == take_exact(
            s,
            n,
        )->Ok_0.0 + take_exact(s, n)->Ok_0.1,
{
    if take_exact(s, n) is Ok {
        assert(s =~= s.take(n as int) + s.skip(n as int));
    }
}

proof fn lemma_pair_of(hi: u8, lo: u8)
    ensures
        (((hi * 256 + lo) as u16) / 256) as u8 == hi,
        (((hi * 256 + lo) as u16) % 256) as u8 == lo,
{
}

/// An address that was read is written as the bytes that it was read from.
pub proof fn lemma_addr_written_back(s: Seq<u8>)
    ensures
        take_addr(s) is Ok ==> s == addr_form(take_addr(s)->Ok_0.0) + take_addr(s)->Ok_0.1,
{
    if take_addr(s) is Ok {
        lemma_pow256();
        law_read_numbers_are_written_back(s, 4);
        let (family, s1) = take_number(s, 4)->Ok_0;
        let n: nat = if family == 0 {
            4
        } else {
            16
        };
        let (b, s2) = take_exact(s1, n)->Ok_0;
        assert(s1 =~= b + s2);
        law_read_numbers_are_written_back(s2, 2);
        let (port, rest) = take_number(s2, 2)->Ok_0;
        let (head, tail) = (le(family, 4), le(port, 2));
        assert(s =~= head + (b + tail) + rest);
        if family == 0 {
            assert(b =~= seq![b[0], b[1], b[2], b[3]]);
        } else {
            lemma_pair_of(b[0], b[1]);
            lemma_pair_of(b[2], b[3]);
            lemma_pair_of(b[4], b[5]);
            lemma_pair_of(b[6], b[7]);
            lemma_pair_of(b[8], b[9]);
            lemma_pair_of(b[10], b[11]);
            lemma_pair_of(b[12], b[13]);
            lemma_pair_of(b[14], b[15]);
            assert(v6_bytes(v6_of(b)) =~= b);
        }
    }
}

/// A byte string ends too early where its length or its bytes do, and so does a text; one that is
/// whole but not UTF-8 is no text.
pub proof fn law_bytes_and_texts_are_refused(s: Seq<u8>, n: nat)
    ensures
        s.len() < 8 ==> take_bytes(s) == Err::<(Seq<u8>, Seq<u8>), ErrorForm>(
            ErrorForm { kind: DecodeKind::UnexpectedEnd, words: bytes_words(s) },
        ) && take_text(s) == Err::<(Seq<char>, Seq<u8>), ErrorForm>(
            ErrorForm { kind: DecodeKind::UnexpectedEnd, words: text_words(s) },
        ),
        s.len() >= 8 && take_number(s, 8) == Ok::<(nat, Seq<u8>), ErrorForm>((n, s.skip(8)))
            && s.len() < 8 + n ==> take_bytes(s) == Err::<(Seq<u8>, Seq<u8>), ErrorForm>(
            ErrorForm { kind: DecodeKind::UnexpectedEnd, words: bytes_words(s) },
        ) && take_text(s) == Err::<(Seq<char>, Seq<u8>), ErrorForm>(
            ErrorForm { kind: DecodeKind::UnexpectedEnd, words: text_words(s) },
        ),
        s.len() >= 8 && take_number(s, 8) == Ok::<(nat, Seq<u8>), ErrorForm>((n, s.skip(8)))
            && s.len() >= 8 + n ==> take_bytes(s) == Ok::<(Seq<u8>, Seq<u8>), ErrorForm>(
            (s.subrange(8, 8 + n as int), s.skip(8 + n as int)),
        ),
        s.len() >= 8 && take_number(s, 8) == Ok::<(nat, Seq<u8>), ErrorForm>((n, s.skip(8)))
            && s.len() >= 8 + n && vstd::utf8::valid_utf8(s.subrange(8, 8
                + n as int)) ==> take_text(s)
            == Ok::<(Seq<char>, Seq<u8>), ErrorForm>(
            (vstd::utf8::decode_utf8(s.subrange(8, 8 + n as int)), s.skip(8 + n as int)),
        ),
        s.len() >= 8 && take_number(s, 8) == Ok::<(nat, Seq<u8>), ErrorForm>((n, s.skip(8)))
            && s.len() >= 8 + n && !vstd::utf8::valid_utf8(s.subrange(8, 8
                + n as int)) ==> take_text(s)
            == Err::<(Seq<char>, Seq<u8>), ErrorForm>(
            ErrorForm { kind: DecodeKind::InvalidUtf8, words: text_words(s) },
        ),
{
    if s.len() >= 8 + n {
        assert(s.skip(8).take(n as int) =~= s.subrange(8, 8 + n as int));
        assert(s.skip(8).skip(n as int) =~= s.skip(8 + n as int));
    }
}

/// A truth value and the sign of an optional text are a zero or a one; any other byte is refused, and
/// so is none.
pub proof fn law_signs_are_refused(s: Seq<u8>)
    ensures
        s.len() == 0 ==> take_bool(s) == Err::<(bool, Seq<u8>), ErrorForm>(
            ErrorForm { kind: DecodeKind::UnexpectedEnd, words: bool_words(s) },
        ) && take_option(s) == Err::<(Option<Seq<char>>, Seq<u8>), ErrorForm>(
            ErrorForm { kind: DecodeKind::UnexpectedEnd, words: u8_words(s) },
        ),
        s.len() > 0 && s[0] == 0 ==> take_bool(s) == Ok::<(bool, Seq<u8>), ErrorForm>(
            (false, s.skip(1)),
        ) && take_option(s) == Ok::<(Option<Seq<char>>, Seq<u8>), ErrorForm>((None, s.skip(1))),
        s.len() > 0 && s[0] == 1 ==> take_bool(s) == Ok::<(bool, Seq<u8>), ErrorForm>(
            (true, s.skip(1)),
        ),
        s.len() > 0 && s[0] == 1 && take_text(s.skip(1)) is Err ==> take_option(s) == Err::<
            (Option<Seq<char>>, Seq<u8>),
            ErrorForm,
        >(take_text(s.skip(1))->Err_0),
        s.len() > 0 && s[0] >= 2 ==> take_bool(s) == Err::<(bool, Seq<u8>), ErrorForm>(
            ErrorForm {
                kind: DecodeKind::InvalidBool,
                words: "invalid u8 while decoding bool, expected 0 or 1, found "@ + text::decimal(
                    s[0] as nat,
                ),
            },
        ) && take_option(s) == Err::<(Option<Seq<char>>, Seq<u8>), ErrorForm>(
            ErrorForm {
                kind: DecodeKind::InvalidTag,
                words: "tag for enum is not valid, found "@ + text::decimal(s[0] as nat),
            },
        ),
{
}

/// An address is refused where its family is neither of the two, or where its bytes end too early.
pub proof fn law_addresses_are_refused(s: Seq<u8>, n: nat)
    ensures
        s.len() < 4 ==> take_addr(s) == Err::<(SocketAddr, Seq<u8>), ErrorForm>(
            ErrorForm { kind: DecodeKind::UnexpectedEnd, words: u32_words(s) },
        ),
        take_number(s, 4) == Ok::<(nat, Seq<u8>), ErrorForm>((n, s.skip(4))) && n >= 2
            ==> take_addr(s) == Err::<(SocketAddr, Seq<u8>), ErrorForm>(
            ErrorForm {
                kind: DecodeKind::UnknownVariant,
                words: "invalid value: integer `"@ + text::decimal(n) + "`, expected "@
                    + "`V4` or `V6`"@,
            },
        ),
        take_number(s, 4) == Ok::<(nat, Seq<u8>), ErrorForm>((0nat, s.skip(4))) ==> (take_addr(
            s,
        ) is Ok <==> s.len() >= 10),
        take_number(s, 4) == Ok::<(nat, Seq<u8>), ErrorForm>((1nat, s.skip(4))) ==> (take_addr(
            s,
        ) is Ok <==> s.len() >= 22),
        take_number(s, 4) == Ok::<(nat, Seq<u8>), ErrorForm>((n, s.skip(4))) && n < 2 && take_addr(
            s,
        ) is Err ==> take_addr(s)->Err_0.kind is UnexpectedEnd,
        take_number(s, 4) == Ok::<(nat, Seq<u8>), ErrorForm>((n, s.skip(4))) && (n == 0 && s.len()
            < 8 || n == 1 && s.len() < 20) ==> take_addr(s) == Err::<
            (SocketAddr, Seq<u8>),
            ErrorForm,
        >(ErrorForm { kind: DecodeKind::UnexpectedEnd, words: u8_words(Seq::empty()) }),
        take_number(s, 4) == Ok::<(nat, Seq<u8>), ErrorForm>((0nat, s.skip(4))) && 8 <= s.len()
            && s.len() < 10 ==> take_addr(s) == Err::<(SocketAddr, Seq<u8>), ErrorForm>(
            ErrorForm { kind: DecodeKind::UnexpectedEnd, words: u16_words(s.skip(8)) },
        ),
        take_number(s, 4) == Ok::<(nat, Seq<u8>), ErrorForm>((1nat, s.skip(4))) && 20 <= s.len()
            && s.len() < 22 ==> take_addr(s) == Err::<(SocketAddr, Seq<u8>), ErrorForm>(
            ErrorForm { kind: DecodeKind::UnexpectedEnd, words: u16_words(s.skip(20)) },
        ),
{
    if s.len() >= 4 {
        let s1 = s.skip(4);
        if s.len() >= 8 {
            assert(s1.skip(4) =~= s.skip(8));
        }
        if s.len() >= 20 {
            assert(s1.skip(16) =~= s.skip(20));
        }
    }
}

} // verus!
