//! The messages of the stream transport.

use vstd::prelude::*;

use base64::Engine;

use crate::addr::SocketAddr;
use crate::net::codec;
use crate::net::codec::{DecodeError, DecodeKind, ErrorForm, Reader};
use crate::text;

verus! {

/// A message between peers.
#[derive(Clone, Debug)]
pub enum WireMessage {
    Hello { version: u8 },
    IdentityInit { version: u8, pubkey: Vec<u8>, challenge: [u8; 32], label: Option<String> },
    IdentityAck { pubkey: Vec<u8>, signature: Vec<u8> },
    Punch { nonce: u64 },
    Cancel { file_id: u64 },
    FileMeta { file_id: u64, name: String, size: u64, offset: u64 },
    ResumeQuery { file_id: u64, name: String, size: u64 },
    ResumeAnswer { file_id: u64, offset: u64, ok: bool, reason: Option<String> },
    FileChunk { file_id: u64, data: Vec<u8> },
    FileDone { file_id: u64 },
    ObservedEndpoint { addr: SocketAddr },
    Ping { nonce: u64 },
    Pong { nonce: u64 },
}

/// What a message says, as a value of mathematics.
pub enum WireForm {
    Hello { version: u8 },
    IdentityInit { version: u8, pubkey: Seq<u8>, challenge: Seq<u8>, label: Option<Seq<char>> },
    IdentityAck { pubkey: Seq<u8>, signature: Seq<u8> },
    Punch { nonce: u64 },
    Cancel { file_id: u64 },
    FileMeta { file_id: u64, name: Seq<char>, size: u64, offset: u64 },
    ResumeQuery { file_id: u64, name: Seq<char>, size: u64 },
    ResumeAnswer { file_id: u64, offset: u64, ok: bool, reason: Option<Seq<char>> },
    FileChunk { file_id: u64, data: Seq<u8> },
    FileDone { file_id: u64 },
    ObservedEndpoint { addr: SocketAddr },
    Ping { nonce: u64 },
    Pong { nonce: u64 },
}

impl View for WireMessage {
    type V = WireForm;

    open spec fn view(&self) -> WireForm {
        match *self {
            WireMessage::Hello { version } => WireForm::Hello { version },
            WireMessage::IdentityInit { version, pubkey, challenge, label } => WireForm::IdentityInit {
                version,
                pubkey: pubkey@,
                challenge: challenge@,
                label: text::text_in(label),
            },
            WireMessage::IdentityAck { pubkey, signature } => WireForm::IdentityAck {
                pubkey: pubkey@,
                signature: signature@,
            },
            WireMessage::Punch { nonce } => WireForm::Punch { nonce },
            WireMessage::Cancel { file_id } => WireForm::Cancel { file_id },
            WireMessage::FileMeta { file_id, name, size, offset } => WireForm::FileMeta {
                file_id,
                name: name@,
                size,
                offset,
            },
            WireMessage::ResumeQuery { file_id, name, size } => WireForm::ResumeQuery {
                file_id,
                name: name@,
                size,
            },
            WireMessage::ResumeAnswer { file_id, offset, ok, reason } => WireForm::ResumeAnswer {
                file_id,
                offset,
                ok,
                reason: text::text_in(reason),
            },
            WireMessage::FileChunk { file_id, data } => WireForm::FileChunk {
                file_id,
                data: data@,
            },
            WireMessage::FileDone { file_id } => WireForm::FileDone { file_id },
            WireMessage::ObservedEndpoint { addr } => WireForm::ObservedEndpoint { addr },
            WireMessage::Ping { nonce } => WireForm::Ping { nonce },
            WireMessage::Pong { nonce } => WireForm::Pong { nonce },
        }
    }
}

/// The bytes of a message: the index of its kind, then its fields in order.
pub open spec fn encoded(m: WireForm) -> Seq<u8> {
    match m {
        WireForm::Hello { version } => codec::le(0, 4) + codec::le(version as nat, 1),
        WireForm::IdentityInit { version, pubkey, challenge, label } => codec::le(1, 4)
            + (codec::le(version as nat, 1)
            + (codec::bytes_form(pubkey)
            + (challenge
            + (codec::option_form(label))))),
        WireForm::IdentityAck { pubkey, signature } => codec::le(2, 4)
            + (codec::bytes_form(pubkey)
            + (codec::bytes_form(signature))),
        WireForm::Punch { nonce } => codec::le(3, 4) + codec::le(nonce as nat, 8),
        WireForm::Cancel { file_id } => codec::le(4, 4) + codec::le(file_id as nat, 8),
        WireForm::FileMeta { file_id, name, size, offset } => codec::le(5, 4)
            + (codec::le(file_id as nat, 8)
            + (codec::text_form(name)
            + (codec::le(size as nat, 8)
            + (codec::le(offset as nat, 8))))),
        WireForm::ResumeQuery { file_id, name, size } => codec::le(6, 4)
            + (codec::le(file_id as nat, 8)
            + (codec::text_form(name)
            + (codec::le(size as nat, 8)))),
        WireForm::ResumeAnswer { file_id, offset, ok, reason } => codec::le(7, 4)
            + (codec::le(file_id as nat, 8)
            + (codec::le(offset as nat, 8)
            + (codec::bool_form(ok)
            + (codec::option_form(reason))))),
        WireForm::FileChunk { file_id, data } => codec::le(8, 4)
            + (codec::le(file_id as nat, 8)
            + (codec::bytes_form(data))),
        WireForm::FileDone { file_id } => codec::le(9, 4) + codec::le(file_id as nat, 8),
        WireForm::ObservedEndpoint { addr } => codec::le(10, 4) + codec::addr_form(addr),
        WireForm::Ping { nonce } => codec::le(11, 4) + codec::le(nonce as nat, 8),
        WireForm::Pong { nonce } => codec::le(12, 4) + codec::le(nonce as nat, 8),
    }
}

/// The fields of `Hello`, and the bytes behind them.
pub open spec fn hello_fields(s: Seq<u8>) -> Result<(WireForm, Seq<u8>), ErrorForm> {
    match codec::take_number(s, 1) {
        Ok((version, s1)) => Ok((WireForm::Hello { version: version as u8 }, s1)),
        Err(e) => Err(e),
    }
}

/// The fields of `IdentityInit`, and the bytes behind them.
pub open spec fn identity_init_fields(s: Seq<u8>) -> Result<(WireForm, Seq<u8>), ErrorForm> {
    match codec::take_number(s, 1) {
        Ok((version, s1)) => match codec::take_bytes(s1) {
            Ok((pubkey, s2)) => match codec::take_exact(s2, 32) {
                Ok((challenge, s3)) => match codec::take_option(s3) {
                    Ok((label, s4)) => Ok((WireForm::IdentityInit {
                        version: version as u8,
                        pubkey,
                        challenge,
                        label,
                    }, s4)),
                    Err(e) => Err(e),
                },
                Err(e) => Err(e),
            },
            Err(e) => Err(e),
        },
        Err(e) => Err(e),
    }
}

/// The fields of `IdentityAck`, and the bytes behind them.
pub open spec fn identity_ack_fields(s: Seq<u8>) -> Result<(WireForm, Seq<u8>), ErrorForm> {
    match codec::take_bytes(s) {
        Ok((pubkey, s1)) => match codec::take_bytes(s1) {
            Ok((signature, s2)) => Ok((WireForm::IdentityAck { pubkey, signature }, s2)),
            Err(e) => Err(e),
        },
        Err(e) => Err(e),
    }
}

/// The fields of `Punch`, and the bytes behind them.
pub open spec fn punch_fields(s: Seq<u8>) -> Result<(WireForm, Seq<u8>), ErrorForm> {
    match codec::take_number(s, 8) {
        Ok((nonce, s1)) => Ok((WireForm::Punch { nonce: nonce as u64 }, s1)),
        Err(e) => Err(e),
    }
}

/// The fields of `Cancel`, and the bytes behind them.
pub open spec fn cancel_fields(s: Seq<u8>) -> Result<(WireForm, Seq<u8>), ErrorForm> {
    match codec::take_number(s, 8) {
        Ok((file_id, s1)) => Ok((WireForm::Cancel { file_id: file_id as u64 }, s1)),
        Err(e) => Err(e),
    }
}

/// The fields of `FileMeta`, and the bytes behind them.
pub open spec fn file_meta_fields(s: Seq<u8>) -> Result<(WireForm, Seq<u8>), ErrorForm> {
    match codec::take_number(s, 8) {
        Ok((file_id, s1)) => match codec::take_text(s1) {
            Ok((name, s2)) => match codec::take_number(s2, 8) {
                Ok((size, s3)) => match codec::take_number(s3, 8) {
                    Ok((offset, s4)) => Ok((WireForm::FileMeta {
                        file_id: file_id as u64,
                        name,
                        size: size as u64,
                        offset: offset as u64,
                    }, s4)),
                    Err(e) => Err(e),
                },
                Err(e) => Err(e),
            },
            Err(e) => Err(e),
        },
        Err(e) => Err(e),
    }
}

/// The fields of `ResumeQuery`, and the bytes behind them.
pub open spec fn resume_query_fields(s: Seq<u8>) -> Result<(WireForm, Seq<u8>), ErrorForm> {
    match codec::take_number(s, 8) {
        Ok((file_id, s1)) => match codec::take_text(s1) {
            Ok((name, s2)) => match codec::take_number(s2, 8) {
                Ok((size, s3)) => Ok((WireForm::ResumeQuery {
                    file_id: file_id as u64,
                    name,
                    size: size as u64,
                }, s3)),
                Err(e) => Err(e),
            },
            Err(e) => Err(e),
        },
        Err(e) => Err(e),
    }
}

/// The fields of `ResumeAnswer`, and the bytes behind them.
pub open spec fn resume_answer_fields(s: Seq<u8>) -> Result<(WireForm, Seq<u8>), ErrorForm> {
    match codec::take_number(s, 8) {
        Ok((file_id, s1)) => match codec::take_number(s1, 8) {
            Ok((offset, s2)) => match codec::take_bool(s2) {
                Ok((ok, s3)) => match codec::take_option(s3) {
                    Ok((reason, s4)) => Ok((WireForm::ResumeAnswer {
                        file_id: file_id as u64,
                        offset: offset as u64,
                        ok,
                        reason,
                    }, s4)),
                    Err(e) => Err(e),
                },
                Err(e) => Err(e),
            },
            Err(e) => Err(e),
        },
        Err(e) => Err(e),
    }
}

/// The fields of `FileChunk`, and the bytes behind them.
pub open spec fn file_chunk_fields(s: Seq<u8>) -> Result<(WireForm, Seq<u8>), ErrorForm> {
    match codec::take_number(s, 8) {
        Ok((file_id, s1)) => match codec::take_bytes(s1) {
            Ok((data, s2)) => Ok((WireForm::FileChunk { file_id: file_id as u64, data }, s2)),
            Err(e) => Err(e),
        },
        Err(e) => Err(e),
    }
}

/// The fields of `FileDone`, and the bytes behind them.
pub open spec fn file_done_fields(s: Seq<u8>) -> Result<(WireForm, Seq<u8>), ErrorForm> {
    match codec::take_number(s, 8) {
        Ok((file_id, s1)) => Ok((WireForm::FileDone { file_id: file_id as u64 }, s1)),
        Err(e) => Err(e),
    }
}

/// The fields of `ObservedEndpoint`, and the bytes behind them.
pub open spec fn observed_endpoint_fields(s: Seq<u8>) -> Result<(WireForm, Seq<u8>), ErrorForm> {
    match codec::take_addr(s) {
        Ok((addr, s1)) => Ok((WireForm::ObservedEndpoint { addr }, s1)),
        Err(e) => Err(e),
    }
}

/// The fields of `Ping`, and the bytes behind them.
pub open spec fn ping_fields(s: Seq<u8>) -> Result<(WireForm, Seq<u8>), ErrorForm> {
    match codec::take_number(s, 8) {
        Ok((nonce, s1)) => Ok((WireForm::Ping { nonce: nonce as u64 }, s1)),
        Err(e) => Err(e),
    }
}

/// The fields of `Pong`, and the bytes behind them.
pub open spec fn pong_fields(s: Seq<u8>) -> Result<(WireForm, Seq<u8>), ErrorForm> {
    match codec::take_number(s, 8) {
        Ok((nonce, s1)) => Ok((WireForm::Pong { nonce: nonce as u64 }, s1)),
        Err(e) => Err(e),
    }
}

/// The fields of the message kind with this index, and the bytes behind them.
pub open spec fn fields(kind: nat, s: Seq<u8>) -> Result<(WireForm, Seq<u8>), ErrorForm> {
    if kind == 0 {
        hello_fields(s)
    } else if kind == 1 {
        identity_init_fields(s)
    } else if kind == 2 {
        identity_ack_fields(s)
    } else if kind == 3 {
        punch_fields(s)
    } else if kind == 4 {
        cancel_fields(s)
    } else if kind == 5 {
        file_meta_fields(s)
    } else if kind == 6 {
        resume_query_fields(s)
    } else if kind == 7 {
        resume_answer_fields(s)
    } else if kind == 8 {
        file_chunk_fields(s)
    } else if kind == 9 {
        file_done_fields(s)
    } else if kind == 10 {
        observed_endpoint_fields(s)
    } else if kind == 11 {
        ping_fields(s)
    } else if kind == 12 {
        pong_fields(s)
    } else {
        Err(codec::no_variant(kind, "variant index 0 <= i < 13"@))
    }
}

/// A message at the front of bytes, and the bytes behind it.
pub open spec fn decoded_prefix(s: Seq<u8>) -> Result<(WireForm, Seq<u8>), ErrorForm> {
    match codec::take_number(s, 4) {
        Ok((kind, rest)) => fields(kind, rest),
        Err(e) => Err(e),
    }
}

/// The message that bytes hold, with nothing behind it.
pub open spec fn decoded(s: Seq<u8>) -> Result<WireForm, ErrorForm> {
    match decoded_prefix(s) {
        Ok((m, rest)) => if rest.len() == 0 {
            Ok(m)
        } else {
            Err(codec::too_long())
        },
        Err(e) => Err(e),
    }
}

/// Whether what was read is what the grammar says, with `rest` behind it.
pub open spec fn read_as(
    r: Result<WireMessage, DecodeError>,
    said: Result<(WireForm, Seq<u8>), ErrorForm>,
    rest: Seq<u8>,
) -> bool {
    match r {
        Ok(m) => said == Ok::<(WireForm, Seq<u8>), ErrorForm>((m@, rest)),
        Err(e) => said == Err::<(WireForm, Seq<u8>), ErrorForm>(e@),
    }
}

fn array_of(v: &Vec<u8>) -> (r: [u8; 32])
    requires
        v@.len() == 32,
    ensures
        r@ == v@,
{
    let mut r: [u8; 32] = [0u8; 32];
    let mut i: usize = 0;
    while i < 32
        invariant
            i <= 32,
            v@.len() == 32,
            r@.len() == 32,
            r@.take(i as int) == v@.take(i as int),
        decreases 32 - i,
    {
        let ghost before = r@;
        r[i] = v[i];
        assert(r@.take(i + 1) =~= before.take(i as int).push(v@[i as int]));
        assert(v@.take(i + 1) =~= v@.take(i as int).push(v@[i as int]));
        i += 1;
    }
    assert(r@.take(32) =~= r@);
    assert(v@.take(32) =~= v@);
    r
}

fn read_hello(input: &mut Reader) -> (r: Result<WireMessage, DecodeError>)
    requires
        old(input).wf(),
    ensures
        final(input).wf(),
        final(input).data == old(input).data,
        read_as(r, hello_fields(old(input).rest()), final(input).rest()),
{
    let version: u8 = match input.get_u8() {
        Ok(v) => v,
        Err(e) => {
            return Err(e);
        },
    };
    Ok(WireMessage::Hello { version })
}

fn read_identity_init(input: &mut Reader) -> (r: Result<WireMessage, DecodeError>)
    requires
        old(input).wf(),
    ensures
        final(input).wf(),
        final(input).data == old(input).data,
        read_as(r, identity_init_fields(old(input).rest()), final(input).rest()),
{
    let version: u8 = match input.get_u8() {
        Ok(v) => v,
        Err(e) => {
            return Err(e);
        },
    };
    let pubkey = match input.get_bytes() {
        Ok(v) => v,
        Err(e) => {
            return Err(e);
        },
    };
    let challenge = match input.get_exact(32) {
        Ok(v) => v,
        Err(e) => {
            return Err(e);
        },
    };
    let challenge = array_of(&challenge);
    let label = match input.get_option() {
        Ok(v) => v,
        Err(e) => {
            return Err(e);
        },
    };
    Ok(WireMessage::IdentityInit { version, pubkey, challenge, label })
}

fn read_identity_ack(input: &mut Reader) -> (r: Result<WireMessage, DecodeError>)
    requires
        old(input).wf(),
    ensures
        final(input).wf(),
        final(input).data == old(input).data,
        read_as(r, identity_ack_fields(old(input).rest()), final(input).rest()),
{
    let pubkey = match input.get_bytes() {
        Ok(v) => v,
        Err(e) => {
            return Err(e);
        },
    };
    let signature = match input.get_bytes() {
        Ok(v) => v,
        Err(e) => {
            return Err(e);
        },
    };
    Ok(WireMessage::IdentityAck { pubkey, signature })
}

fn read_punch(input: &mut Reader) -> (r: Result<WireMessage, DecodeError>)
    requires
        old(input).wf(),
    ensures
        final(input).wf(),
        final(input).data == old(input).data,
        read_as(r, punch_fields(old(input).rest()), final(input).rest()),
{
    let nonce: u64 = match input.get_u64() {
        Ok(v) => v,
        Err(e) => {
            return Err(e);
        },
    };
    Ok(WireMessage::Punch { nonce })
}

fn read_cancel(input: &mut Reader) -> (r: Result<WireMessage, DecodeError>)
    requires
        old(input).wf(),
    ensures
        final(input).wf(),
        final(input).data == old(input).data,
        read_as(r, cancel_fields(old(input).rest()), final(input).rest()),
{
    let file_id: u64 = match input.get_u64() {
        Ok(v) => v,
        Err(e) => {
            return Err(e);
        },
    };
    Ok(WireMessage::Cancel { file_id })
}

fn read_file_meta(input: &mut Reader) -> (r: Result<WireMessage, DecodeError>)
    requires
        old(input).wf(),
    ensures
        final(input).wf(),
        final(input).data == old(input).data,
        read_as(r, file_meta_fields(old(input).rest()), final(input).rest()),
{
    let file_id: u64 = match input.get_u64() {
        Ok(v) => v,
        Err(e) => {
            return Err(e);
        },
    };
    let name = match input.get_text() {
        Ok(v) => v,
        Err(e) => {
            return Err(e);
        },
    };
    let size: u64 = match input.get_u64() {
        Ok(v) => v,
        Err(e) => {
            return Err(e);
        },
    };
    let offset: u64 = match input.get_u64() {
        Ok(v) => v,
        Err(e) => {
            return Err(e);
        },
    };
    Ok(WireMessage::FileMeta { file_id, name, size, offset })
}

fn read_resume_query(input: &mut Reader) -> (r: Result<WireMessage, DecodeError>)
    requires
        old(input).wf(),
    ensures
        final(input).wf(),
        final(input).data == old(input).data,
        read_as(r, resume_query_fields(old(input).rest()), final(input).rest()),
{
    let file_id: u64 = match input.get_u64() {
        Ok(v) => v,
        Err(e) => {
            return Err(e);
        },
    };
    let name = match input.get_text() {
        Ok(v) => v,
        Err(e) => {
            return Err(e);
        },
    };
    let size: u64 = match input.get_u64() {
        Ok(v) => v,
        Err(e) => {
            return Err(e);
        },
    };
    Ok(WireMessage::ResumeQuery { file_id, name, size })
}

fn read_resume_answer(input: &mut Reader) -> (r: Result<WireMessage, DecodeError>)
    requires
        old(input).wf(),
    ensures
        final(input).wf(),
        final(input).data == old(input).data,
        read_as(r, resume_answer_fields(old(input).rest()), final(input).rest()),
{
    let file_id: u64 = match input.get_u64() {
        Ok(v) => v,
        Err(e) => {
            return Err(e);
        },
    };
    let offset: u64 = match input.get_u64() {
        Ok(v) => v,
        Err(e) => {
            return Err(e);
        },
    };
    let ok = match input.get_bool() {
        Ok(v) => v,
        Err(e) => {
            return Err(e);
        },
    };
    let reason = match input.get_option() {
        Ok(v) => v,
        Err(e) => {
            return Err(e);
        },
    };
    Ok(WireMessage::ResumeAnswer { file_id, offset, ok, reason })
}

fn read_file_chunk(input: &mut Reader) -> (r: Result<WireMessage, DecodeError>)
    requires
        old(input).wf(),
    ensures
        final(input).wf(),
        final(input).data == old(input).data,
        read_as(r, file_chunk_fields(old(input).rest()), final(input).rest()),
{
    let file_id: u64 = match input.get_u64() {
        Ok(v) => v,
        Err(e) => {
            return Err(e);
        },
    };
    let data = match input.get_bytes() {
        Ok(v) => v,
        Err(e) => {
            return Err(e);
        },
    };
    Ok(WireMessage::FileChunk { file_id, data })
}

fn read_file_done(input: &mut Reader) -> (r: Result<WireMessage, DecodeError>)
    requires
        old(input).wf(),
    ensures
        final(input).wf(),
        final(input).data == old(input).data,
        read_as(r, file_done_fields(old(input).rest()), final(input).rest()),
{
    let file_id: u64 = match input.get_u64() {
        Ok(v) => v,
        Err(e) => {
            return Err(e);
        },
    };
    Ok(WireMessage::FileDone { file_id })
}

fn read_observed_endpoint(input: &mut Reader) -> (r: Result<WireMessage, DecodeError>)
    requires
        old(input).wf(),
    ensures
        final(input).wf(),
        final(input).data == old(input).data,
        read_as(r, observed_endpoint_fields(old(input).rest()), final(input).rest()),
{
    let addr = match input.get_addr() {
        Ok(v) => v,
        Err(e) => {
            return Err(e);
        },
    };
    Ok(WireMessage::ObservedEndpoint { addr })
}

fn read_ping(input: &mut Reader) -> (r: Result<WireMessage, DecodeError>)
    requires
        old(input).wf(),
    ensures
        final(input).wf(),
        final(input).data == old(input).data,
        read_as(r, ping_fields(old(input).rest()), final(input).rest()),
{
    let nonce: u64 = match input.get_u64() {
        Ok(v) => v,
        Err(e) => {
            return Err(e);
        },
    };
    Ok(WireMessage::Ping { nonce })
}

fn read_pong(input: &mut Reader) -> (r: Result<WireMessage, DecodeError>)
    requires
        old(input).wf(),
    ensures
        final(input).wf(),
        final(input).data == old(input).data,
        read_as(r, pong_fields(old(input).rest()), final(input).rest()),
{
    let nonce: u64 = match input.get_u64() {
        Ok(v) => v,
        Err(e) => {
            return Err(e);
        },
    };
    Ok(WireMessage::Pong { nonce })
}

/// Reads the fields of the message kind with index `kind`.
fn read_fields(kind: u32, input: &mut Reader) -> (r: Result<WireMessage, DecodeError>)
    requires
        old(input).wf(),
    ensures
        final(input).wf(),
        final(input).data == old(input).data,
        read_as(r, fields(kind as nat, old(input).rest()), final(input).rest()),
{
    match kind {
        0 => read_hello(input),
        1 => read_identity_init(input),
        2 => read_identity_ack(input),
        3 => read_punch(input),
        4 => read_cancel(input),
        5 => read_file_meta(input),
        6 => read_resume_query(input),
        7 => read_resume_answer(input),
        8 => read_file_chunk(input),
        9 => read_file_done(input),
        10 => read_observed_endpoint(input),
        11 => read_ping(input),
        12 => read_pong(input),
        _ => Err(codec::unknown_variant(kind, "variant index 0 <= i < 13")),
    }
}

/// Encodes a message. The result has to fit in one allocation.
pub fn serialize_message(message: &WireMessage) -> (r: Vec<u8>)
    requires
        encoded(message@).len() <= isize::MAX,
    ensures
        r@ == encoded(message@),
{
    let mut out: Vec<u8> = Vec::new();
    match message {
        WireMessage::Hello { version } => {
            codec::put_u32(&mut out, 0);
            codec::put_u8(&mut out, *version);
        },
        WireMessage::IdentityInit { version, pubkey, challenge, label } => {
            codec::put_u32(&mut out, 1);
            codec::put_u8(&mut out, *version);
            codec::put_bytes(&mut out, pubkey.as_slice());
            codec::put_exact(&mut out, challenge.as_slice());
            codec::put_option(&mut out, label);
        },
        WireMessage::IdentityAck { pubkey, signature } => {
            codec::put_u32(&mut out, 2);
            codec::put_bytes(&mut out, pubkey.as_slice());
            codec::put_bytes(&mut out, signature.as_slice());
        },
        WireMessage::Punch { nonce } => {
            codec::put_u32(&mut out, 3);
            codec::put_u64(&mut out, *nonce);
        },
        WireMessage::Cancel { file_id } => {
            codec::put_u32(&mut out, 4);
            codec::put_u64(&mut out, *file_id);
        },
        WireMessage::FileMeta { file_id, name, size, offset } => {
            codec::put_u32(&mut out, 5);
            codec::put_u64(&mut out, *file_id);
            codec::put_text(&mut out, name.as_str());
            codec::put_u64(&mut out, *size);
            codec::put_u64(&mut out, *offset);
        },
        WireMessage::ResumeQuery { file_id, name, size } => {
            codec::put_u32(&mut out, 6);
            codec::put_u64(&mut out, *file_id);
            codec::put_text(&mut out, name.as_str());
            codec::put_u64(&mut out, *size);
        },
        WireMessage::ResumeAnswer { file_id, offset, ok, reason } => {
            codec::put_u32(&mut out, 7);
            codec::put_u64(&mut out, *file_id);
            codec::put_u64(&mut out, *offset);
            codec::put_bool(&mut out, *ok);
            codec::put_option(&mut out, reason);
        },
        WireMessage::FileChunk { file_id, data } => {
            codec::put_u32(&mut out, 8);
            codec::put_u64(&mut out, *file_id);
            codec::put_bytes(&mut out, data.as_slice());
        },
        WireMessage::FileDone { file_id } => {
            codec::put_u32(&mut out, 9);
            codec::put_u64(&mut out, *file_id);
        },
        WireMessage::ObservedEndpoint { addr } => {
            codec::put_u32(&mut out, 10);
            codec::put_addr(&mut out, addr);
        },
        WireMessage::Ping { nonce } => {
            codec::put_u32(&mut out, 11);
            codec::put_u64(&mut out, *nonce);
        },
        WireMessage::Pong { nonce } => {
            codec::put_u32(&mut out, 12);
            codec::put_u64(&mut out, *nonce);
        },
    }
    assert(out@ =~= encoded(message@));
    out
}

/// Decodes a message that fills `bytes`.
pub fn deserialize_message(bytes: &[u8]) -> (r: Result<WireMessage, DecodeError>)
    ensures
        match r {
            Ok(m) => decoded(bytes@) == Ok::<WireForm, ErrorForm>(m@),
            Err(e) => decoded(bytes@) == Err::<WireForm, ErrorForm>(e@),
        },
{
    let mut input = Reader::new(bytes);
    let kind: u32 = match input.get_u32() {
        Ok(v) => v,
        Err(e) => {
            return Err(e);
        },
    };
    match read_fields(kind, &mut input) {
        Ok(m) => if input.is_finished() {
            Ok(m)
        } else {
            Err(codec::trailing_bytes())
        },
        Err(e) => Err(e),
    }
}

/// The values that can be sent: a challenge has 32 bytes.
pub open spec fn sendable(m: WireForm) -> bool {
    m matches WireForm::IdentityInit { challenge, .. } ==> challenge.len() == 32
}

/// The message that arrives: an IPv6 endpoint loses its flow label and scope.
pub open spec fn arriving(m: WireForm) -> WireForm {
    match m {
        WireForm::ObservedEndpoint { addr } => WireForm::ObservedEndpoint {
            addr: codec::addr_sent(addr),
        },
        _ => m,
    }
}

/// Bytes that begin with an encoded message are read as that message, and as no more.
pub proof fn law_message_is_read(m: WireForm, rest: Seq<u8>)
    requires
        sendable(m),
        encoded(m).len() <= u64::MAX,
    ensures
        decoded_prefix(encoded(m) + rest) == Ok::<(WireForm, Seq<u8>), ErrorForm>(
            (arriving(m), rest),
        ),
        decoded(encoded(m)) == Ok::<WireForm, ErrorForm>(arriving(m)),
        rest.len() > 0 ==> decoded(encoded(m) + rest) == Err::<WireForm, ErrorForm>(
            codec::too_long(),
        ),
{
    lemma_message_prefix(m, rest);
    lemma_message_prefix(m, Seq::empty());
    assert(encoded(m) + Seq::<u8>::empty() =~= encoded(m));
}

proof fn lemma_hello_read(m: WireForm, rest: Seq<u8>)
    requires
        m is Hello,
        sendable(m),
        encoded(m).len() <= u64::MAX,
    ensures
        decoded_prefix(encoded(m) + rest) == Ok::<(WireForm, Seq<u8>), ErrorForm>(
            (arriving(m), rest),
        ),
{
    if let WireForm::Hello { version } = m {
        codec::lemma_pow256();
        codec::lemma_number_read(0, 4, codec::le(version as nat, 1) + rest);
        codec::lemma_number_read(version as nat, 1, rest);
        assert(encoded(m) + rest =~= codec::le(0, 4) + (codec::le(version as nat, 1) + rest));
    }
}

proof fn lemma_identity_init_fields(
    version: u8,
    pubkey: Seq<u8>,
    challenge: Seq<u8>,
    label: Option<Seq<char>>,
    rest: Seq<u8>,
)
    requires
        challenge.len() == 32,
        pubkey.len() <= u64::MAX,
        label matches Some(t) ==> vstd::utf8::encode_utf8(t).len() <= u64::MAX,
    ensures
        identity_init_fields(
            codec::le(version as nat, 1) + (codec::bytes_form(pubkey) + (challenge + (
            codec::option_form(label) + rest))),
        ) == Ok::<(WireForm, Seq<u8>), ErrorForm>(
            (WireForm::IdentityInit { version, pubkey, challenge, label }, rest),
        ),
{
    let s3 = codec::option_form(label) + rest;
    let s2 = challenge + s3;
    let s1 = codec::bytes_form(pubkey) + s2;
    codec::lemma_pow256();
    codec::lemma_number_read(version as nat, 1, s1);
    codec::lemma_bytes_read(pubkey, s2);
    codec::lemma_exact_read(challenge, s3);
    codec::lemma_option_read(label, rest);
}

proof fn lemma_identity_init_read(m: WireForm, rest: Seq<u8>)
    requires
        m is IdentityInit,
        sendable(m),
        encoded(m).len() <= u64::MAX,
    ensures
        decoded_prefix(encoded(m) + rest) == Ok::<(WireForm, Seq<u8>), ErrorForm>(
            (arriving(m), rest),
        ),
{
    if let WireForm::IdentityInit { version, pubkey, challenge, label } = m {
        let (number, key, name) = (
            codec::le(version as nat, 1),
            codec::bytes_form(pubkey),
            codec::option_form(label),
        );
        codec::lemma_pow256();
        codec::lemma_regrouped(challenge, name, rest);
        codec::lemma_regrouped(key, challenge + name, rest);
        codec::lemma_regrouped(number, key + (challenge + name), rest);
        codec::lemma_regrouped(codec::le(1, 4), number + (key + (challenge + name)), rest);
        codec::lemma_number_read(1, 4, number + (key + (challenge + (name + rest))));
        lemma_identity_init_fields(version, pubkey, challenge, label, rest);
    }
}

proof fn lemma_identity_ack_read(m: WireForm, rest: Seq<u8>)
    requires
        m is IdentityAck,
        sendable(m),
        encoded(m).len() <= u64::MAX,
    ensures
        decoded_prefix(encoded(m) + rest) == Ok::<(WireForm, Seq<u8>), ErrorForm>(
            (arriving(m), rest),
        ),
{
    if let WireForm::IdentityAck { pubkey, signature } = m {
        codec::lemma_pow256();
        codec::lemma_number_read(
            2,
            4,
            codec::bytes_form(pubkey) + (codec::bytes_form(signature) + rest),
        );
        codec::lemma_bytes_read(pubkey, codec::bytes_form(signature) + rest);
        codec::lemma_bytes_read(signature, rest);
        assert(encoded(m) + rest =~= codec::le(2, 4)
            + (codec::bytes_form(pubkey)
            + (codec::bytes_form(signature)
            + rest)));
    }
}

proof fn lemma_punch_read(m: WireForm, rest: Seq<u8>)
    requires
        m is Punch,
        sendable(m),
        encoded(m).len() <= u64::MAX,
    ensures
        decoded_prefix(encoded(m) + rest) == Ok::<(WireForm, Seq<u8>), ErrorForm>(
            (arriving(m), rest),
        ),
{
    if let WireForm::Punch { nonce } = m {
        codec::lemma_pow256();
        codec::lemma_number_read(3, 4, codec::le(nonce as nat, 8) + rest);
        codec::lemma_number_read(nonce as nat, 8, rest);
        assert(encoded(m) + rest =~= codec::le(3, 4) + (codec::le(nonce as nat, 8) + rest));
    }
}

proof fn lemma_cancel_read(m: WireForm, rest: Seq<u8>)
    requires
        m is Cancel,
        sendable(m),
        encoded(m).len() <= u64::MAX,
    ensures
        decoded_prefix(encoded(m) + rest) == Ok::<(WireForm, Seq<u8>), ErrorForm>(
            (arriving(m), rest),
        ),
{
    if let WireForm::Cancel { file_id } = m {
        codec::lemma_pow256();
        codec::lemma_number_read(4, 4, codec::le(file_id as nat, 8) + rest);
        codec::lemma_number_read(file_id as nat, 8, rest);
        assert(encoded(m) + rest =~= codec::le(4, 4) + (codec::le(file_id as nat, 8) + rest));
    }
}

proof fn lemma_file_meta_read(m: WireForm, rest: Seq<u8>)
    requires
        m is FileMeta,
        sendable(m),
        encoded(m).len() <= u64::MAX,
    ensures
        decoded_prefix(encoded(m) + rest) == Ok::<(WireForm, Seq<u8>), ErrorForm>(
            (arriving(m), rest),
        ),
{
    if let WireForm::FileMeta { file_id, name, size, offset } = m {
        codec::lemma_pow256();
        codec::lemma_number_read(
            5,
            4,
            codec::le(file_id as nat, 8)
                + (codec::text_form(name)
                + (codec::le(size as nat, 8)
                + (codec::le(offset as nat, 8)
                + rest))),
        );
        codec::lemma_number_read(
            file_id as nat,
            8,
            codec::text_form(name)
                + (codec::le(size as nat, 8)
                + (codec::le(offset as nat, 8)
                + rest)),
        );
        codec::lemma_text_read(
            name,
            codec::le(size as nat, 8) + (codec::le(offset as nat, 8) + rest),
        );
        codec::lemma_number_read(size as nat, 8, codec::le(offset as nat, 8) + rest);
        codec::lemma_number_read(offset as nat, 8, rest);
        assert(encoded(m) + rest =~= codec::le(5, 4)
            + (codec::le(file_id as nat, 8)
            + (codec::text_form(name)
            + (codec::le(size as nat, 8)
            + (codec::le(offset as nat, 8)
            + rest)))));
    }
}

proof fn lemma_resume_query_read(m: WireForm, rest: Seq<u8>)
    requires
        m is ResumeQuery,
        sendable(m),
        encoded(m).len() <= u64::MAX,
    ensures
        decoded_prefix(encoded(m) + rest) == Ok::<(WireForm, Seq<u8>), ErrorForm>(
            (arriving(m), rest),
        ),
{
    if let WireForm::ResumeQuery { file_id, name, size } = m {
        codec::lemma_pow256();
        codec::lemma_number_read(
            6,
            4,
            codec::le(file_id as nat, 8)
                + (codec::text_form(name)
                + (codec::le(size as nat, 8)
                + rest)),
        );
        codec::lemma_number_read(
            file_id as nat,
            8,
            codec::text_form(name) + (codec::le(size as nat, 8) + rest),
        );
        codec::lemma_text_read(name, codec::le(size as nat, 8) + rest);
        codec::lemma_number_read(size as nat, 8, rest);
        assert(encoded(m) + rest =~= codec::le(6, 4)
            + (codec::le(file_id as nat, 8)
            + (codec::text_form(name)
            + (codec::le(size as nat, 8)
            + rest))));
    }
}

proof fn lemma_resume_answer_fields(
    file_id: u64,
    offset: u64,
    ok: bool,
    reason: Option<Seq<char>>,
    rest: Seq<u8>,
)
    requires
        reason matches Some(t) ==> vstd::utf8::encode_utf8(t).len() <= u64::MAX,
    ensures
        resume_answer_fields(
            codec::le(file_id as nat, 8) + (codec::le(offset as nat, 8) + (codec::bool_form(ok) + (
            codec::option_form(reason) + rest))),
        ) == Ok::<(WireForm, Seq<u8>), ErrorForm>(
            (WireForm::ResumeAnswer { file_id, offset, ok, reason }, rest),
        ),
{
    let s3 = codec::option_form(reason) + rest;
    let s2 = codec::bool_form(ok) + s3;
    let s1 = codec::le(offset as nat, 8) + s2;
    codec::lemma_pow256();
    codec::lemma_number_read(file_id as nat, 8, s1);
    codec::lemma_number_read(offset as nat, 8, s2);
    codec::lemma_bool_read(ok, s3);
    codec::lemma_option_read(reason, rest);
}

proof fn lemma_resume_answer_read(m: WireForm, rest: Seq<u8>)
    requires
        m is ResumeAnswer,
        sendable(m),
        encoded(m).len() <= u64::MAX,
    ensures
        decoded_prefix(encoded(m) + rest) == Ok::<(WireForm, Seq<u8>), ErrorForm>(
            (arriving(m), rest),
        ),
{
    if let WireForm::ResumeAnswer { file_id, offset, ok, reason } = m {
        let (id, start, truth, words) = (
            codec::le(file_id as nat, 8),
            codec::le(offset as nat, 8),
            codec::bool_form(ok),
            codec::option_form(reason),
        );
        codec::lemma_pow256();
        codec::lemma_regrouped(truth, words, rest);
        codec::lemma_regrouped(start, truth + words, rest);
        codec::lemma_regrouped(id, start + (truth + words), rest);
        codec::lemma_regrouped(codec::le(7, 4), id + (start + (truth + words)), rest);
        codec::lemma_number_read(7, 4, id + (start + (truth + (words + rest))));
        lemma_resume_answer_fields(file_id, offset, ok, reason, rest);
    }
}

proof fn lemma_file_chunk_read(m: WireForm, rest: Seq<u8>)
    requires
        m is FileChunk,
        sendable(m),
        encoded(m).len() <= u64::MAX,
    ensures
        decoded_prefix(encoded(m) + rest) == Ok::<(WireForm, Seq<u8>), ErrorForm>(
            (arriving(m), rest),
        ),
{
    if let WireForm::FileChunk { file_id, data } = m {
        codec::lemma_pow256();
        codec::lemma_number_read(
            8,
            4,
            codec::le(file_id as nat, 8) + (codec::bytes_form(data) + rest),
        );
        codec::lemma_number_read(file_id as nat, 8, codec::bytes_form(data) + rest);
        codec::lemma_bytes_read(data, rest);
        assert(encoded(m) + rest =~= codec::le(8, 4)
            + (codec::le(file_id as nat, 8)
            + (codec::bytes_form(data)
            + rest)));
    }
}

proof fn lemma_file_done_read(m: WireForm, rest: Seq<u8>)
    requires
        m is FileDone,
        sendable(m),
        encoded(m).len() <= u64::MAX,
    ensures
        decoded_prefix(encoded(m) + rest) == Ok::<(WireForm, Seq<u8>), ErrorForm>(
            (arriving(m), rest),
        ),
{
    if let WireForm::FileDone { file_id } = m {
        codec::lemma_pow256();
        codec::lemma_number_read(9, 4, codec::le(file_id as nat, 8) + rest);
        codec::lemma_number_read(file_id as nat, 8, rest);
        assert(encoded(m) + rest =~= codec::le(9, 4) + (codec::le(file_id as nat, 8) + rest));
    }
}

proof fn lemma_observed_endpoint_read(m: WireForm, rest: Seq<u8>)
    requires
        m is ObservedEndpoint,
        sendable(m),
        encoded(m).len() <= u64::MAX,
    ensures
        decoded_prefix(encoded(m) + rest) == Ok::<(WireForm, Seq<u8>), ErrorForm>(
            (arriving(m), rest),
        ),
{
    if let WireForm::ObservedEndpoint { addr } = m {
        codec::lemma_pow256();
        codec::lemma_number_read(10, 4, codec::addr_form(addr) + rest);
        codec::lemma_addr_read(addr, rest);
        assert(encoded(m) + rest =~= codec::le(10, 4) + (codec::addr_form(addr) + rest));
    }
}

proof fn lemma_ping_read(m: WireForm, rest: Seq<u8>)
    requires
        m is Ping,
        sendable(m),
        encoded(m).len() <= u64::MAX,
    ensures
        decoded_prefix(encoded(m) + rest) == Ok::<(WireForm, Seq<u8>), ErrorForm>(
            (arriving(m), rest),
        ),
{
    if let WireForm::Ping { nonce } = m {
        codec::lemma_pow256();
        codec::lemma_number_read(11, 4, codec::le(nonce as nat, 8) + rest);
        codec::lemma_number_read(nonce as nat, 8, rest);
        assert(encoded(m) + rest =~= codec::le(11, 4) + (codec::le(nonce as nat, 8) + rest));
    }
}

proof fn lemma_pong_read(m: WireForm, rest: Seq<u8>)
    requires
        m is Pong,
        sendable(m),
        encoded(m).len() <= u64::MAX,
    ensures
        decoded_prefix(encoded(m) + rest) == Ok::<(WireForm, Seq<u8>), ErrorForm>(
            (arriving(m), rest),
        ),
{
    if let WireForm::Pong { nonce } = m {
        codec::lemma_pow256();
        codec::lemma_number_read(12, 4, codec::le(nonce as nat, 8) + rest);
        codec::lemma_number_read(nonce as nat, 8, rest);
        assert(encoded(m) + rest =~= codec::le(12, 4) + (codec::le(nonce as nat, 8) + rest));
    }
}

proof fn lemma_message_prefix(m: WireForm, rest: Seq<u8>)
    requires
        sendable(m),
        encoded(m).len() <= u64::MAX,
    ensures
        decoded_prefix(encoded(m) + rest) == Ok::<(WireForm, Seq<u8>), ErrorForm>(
            (arriving(m), rest),
        ),
{
    match m {
        WireForm::Hello { .. } => lemma_hello_read(m, rest),
        WireForm::IdentityInit { .. } => lemma_identity_init_read(m, rest),
        WireForm::IdentityAck { .. } => lemma_identity_ack_read(m, rest),
        WireForm::Punch { .. } => lemma_punch_read(m, rest),
        WireForm::Cancel { .. } => lemma_cancel_read(m, rest),
        WireForm::FileMeta { .. } => lemma_file_meta_read(m, rest),
        WireForm::ResumeQuery { .. } => lemma_resume_query_read(m, rest),
        WireForm::ResumeAnswer { .. } => lemma_resume_answer_read(m, rest),
        WireForm::FileChunk { .. } => lemma_file_chunk_read(m, rest),
        WireForm::FileDone { .. } => lemma_file_done_read(m, rest),
        WireForm::ObservedEndpoint { .. } => lemma_observed_endpoint_read(m, rest),
        WireForm::Ping { .. } => lemma_ping_read(m, rest),
        WireForm::Pong { .. } => lemma_pong_read(m, rest),
    }
}

// ---------------------------------------------------------------- text payloads

/// The text that `base64` writes for bytes with the standard alphabet and padding.
pub uninterp spec fn base64_text(bytes: Seq<u8>) -> Seq<char>;

/// The bytes that `base64` reads from a text with the standard alphabet and padding;
/// none where it rejects the text.
pub uninterp spec fn base64_bytes(text: Seq<char>) -> Option<Seq<u8>>;

/// `Engine::encode` of `base64` with the `STANDARD` engine. It names the text and states
/// that the characters are of the standard alphabet or padding, that bytes take at least
/// one group of four characters, and that `Engine::decode` gives the bytes back. The
/// result has to fit in one allocation.
#[verifier::external_body]
fn base64_encode(bytes: &[u8]) -> (r: String)
    requires
        bytes@.len() / 3 * 4 + 4 <= isize::MAX,
    ensures
        r@ == base64_text(bytes@),
        bytes@.len() > 0 ==> r@.len() >= 4,
        forall|i: int| 0 <= i < r@.len() ==> '+' <= #[trigger] r@[i] <= 'z',
        base64_bytes(r@) == Some(bytes@),
{
    base64::engine::general_purpose::STANDARD.encode(bytes)
}

/// `Engine::decode` of `base64` with the `STANDARD` engine. It names the bytes; why a text
/// is rejected is not stated.
#[verifier::external_body]
fn base64_decode(text: &str) -> (r: Option<Vec<u8>>)
    ensures
        match r {
            Some(bytes) => base64_bytes(text@) == Some(bytes@),
            None => base64_bytes(text@) is None,
        },
{
    base64::engine::general_purpose::STANDARD.decode(text).ok()
}

/// The message in a payload, given the bytes that the payload unpacks to as a text: the
/// payload itself, else the unpacked bytes; the payload's error where both fail.
pub open spec fn decoded_either(payload: Seq<u8>, unpacked: Option<Seq<u8>>) -> Result<
    WireForm,
    ErrorForm,
> {
    match decoded(payload) {
        Ok(m) => Ok(m),
        Err(e) => match unpacked {
            Some(bytes) => match decoded(bytes) {
                Ok(m) => Ok(m),
                Err(_) => Err(e),
            },
            None => Err(e),
        },
    }
}

/// What a payload unpacks to as a text.
pub open spec fn unpacked(payload: Seq<u8>) -> Option<Seq<u8>> {
    if vstd::utf8::valid_utf8(payload) {
        base64_bytes(vstd::utf8::decode_utf8(payload))
    } else {
        None
    }
}

/// Decodes a payload, given what it unpacks to as a text.
pub fn decode_either(payload: &[u8], unpacked: Option<Vec<u8>>) -> (r: Result<
    WireMessage,
    DecodeError,
>)
    ensures
        ({
            let said = decoded_either(
                payload@,
                match unpacked {
                    Some(b) => Some(b@),
                    None => None,
                },
            );
            match r {
                Ok(m) => said == Ok::<WireForm, ErrorForm>(m@),
                Err(e) => said == Err::<WireForm, ErrorForm>(e@),
            }
        }),
{
    match deserialize_message(payload) {
        Ok(m) => Ok(m),
        Err(binary_err) => {
            if let Some(bytes) = unpacked {
                if let Ok(m) = deserialize_message(bytes.as_slice()) {
                    return Ok(m);
                }
            }
            Err(binary_err)
        },
    }
}

/// Decodes a payload: binary, or binary packed as a base64 text.
pub fn decode_payload(payload: &[u8]) -> (r: Result<WireMessage, DecodeError>)
    ensures
        match r {
            Ok(m) => decoded_either(payload@, unpacked(payload@)) == Ok::<WireForm, ErrorForm>(m@),
            Err(e) => decoded_either(payload@, unpacked(payload@)) == Err::<WireForm, ErrorForm>(
                e@,
            ),
        },
{
    let bytes = match text::utf8_text(payload) {
        Some(t) => base64_decode(t.as_str()),
        None => None,
    };
    decode_either(payload, bytes)
}

proof fn lemma_letters_are_no_message(s: Seq<u8>)
    requires
        s.len() >= 4,
        s[0] >= 43,
    ensures
        decoded(s) is Err,
{
    assert(s.take(4)[0] >= 43);
}

/// Encodes a message as a base64 text. As a payload the text is read as the message.
pub fn serialize_message_base64(message: &WireMessage) -> (r: String)
    requires
        encoded(message@).len() / 3 * 4 + 4 <= isize::MAX,
    ensures
        r@ == base64_text(encoded(message@)),
        decoded_either(vstd::utf8::encode_utf8(r@), unpacked(vstd::utf8::encode_utf8(r@))) == Ok::<
            WireForm,
            ErrorForm,
        >(arriving(message@)),
{
    let bytes = serialize_message(message);
    let r = base64_encode(bytes.as_slice());
    proof {
        let payload = vstd::utf8::encode_utf8(r@);
        codec::lemma_pow256();
        lemma_encoded_nonempty(message@);
        assert(vstd::utf8::is_ascii_chars(r@));
        vstd::utf8::is_ascii_chars_encode_utf8(r@);
        vstd::utf8::encode_utf8_valid_utf8(r@);
        vstd::utf8::encode_utf8_decode_utf8(r@);
        assert(payload[0] == r@[0] as u8);
        lemma_letters_are_no_message(payload);
        law_message_is_read(message@, Seq::empty());
    }
    r
}

proof fn lemma_encoded_nonempty(m: WireForm)
    ensures
        encoded(m).len() >= 4,
{
    codec::lemma_le_len(0, 4);
    codec::lemma_le_len(1, 4);
    codec::lemma_le_len(2, 4);
    codec::lemma_le_len(3, 4);
    codec::lemma_le_len(4, 4);
    codec::lemma_le_len(5, 4);
    codec::lemma_le_len(6, 4);
    codec::lemma_le_len(7, 4);
    codec::lemma_le_len(8, 4);
    codec::lemma_le_len(9, 4);
    codec::lemma_le_len(10, 4);
    codec::lemma_le_len(11, 4);
    codec::lemma_le_len(12, 4);
}

// ---------------------------------------------------------------- starting a transfer

/// To whom files go, and the name that the peer's transfers are kept under.
pub struct SendPlan {
    pub peer: SocketAddr,
    pub peer_id: String,
}

/// Decides whether files can be sent: a connected peer and a connection are needed. The
/// error is the line for the log. A peer without a name goes by its address.
pub fn plan_send(
    connected_peer: Option<SocketAddr>,
    has_connection: bool,
    peer_id: Option<String>,
) -> (r: Result<SendPlan, String>)
    ensures
        match r {
            Ok(plan) => {
                &&& connected_peer == Some(plan.peer)
                &&& has_connection
                &&& plan.peer_id@ == match peer_id {
                    Some(id) => id@,
                    None => plan.peer.text_spec(),
                }
            },
            Err(log) => if connected_peer is None {
                log@ == "nenhum par conectado para enviar arquivos"@
            } else {
                &&& !has_connection
                &&& log@ == "nenhuma conexao ativa para enviar arquivos"@
            },
        },
{
    let peer = match connected_peer {
        Some(peer) => peer,
        None => {
            return Err("nenhum par conectado para enviar arquivos".to_owned());
        },
    };
    if !has_connection {
        return Err("nenhuma conexao ativa para enviar arquivos".to_owned());
    }
    let peer_id = match peer_id {
        Some(id) => id,
        None => peer.text(),
    };
    Ok(SendPlan { peer, peer_id })
}

// ---------------------------------------------------------------- laws

/// A message is written by its number in four bytes and its fields in their order.
pub proof fn law_messages_are_written(
    version: u8,
    pubkey: Seq<u8>,
    challenge: Seq<u8>,
    label: Option<Seq<char>>,
    signature: Seq<u8>,
    nonce: u64,
    file_id: u64,
    name: Seq<char>,
    size: u64,
    offset: u64,
    ok: bool,
    reason: Option<Seq<char>>,
    data: Seq<u8>,
    addr: SocketAddr,
)
    ensures
        encoded(WireForm::Hello { version }) == seq![0u8, 0, 0, 0]
            + codec::le(version as nat, 1),
        encoded(WireForm::IdentityInit { version, pubkey, challenge, label }) == seq![1u8, 0, 0, 0]
            + (codec::le(version as nat, 1) + (
            codec::bytes_form(pubkey) + (
            challenge + (
            codec::option_form(label))))),
        encoded(WireForm::IdentityAck { pubkey, signature }) == seq![2u8, 0, 0, 0]
            + (codec::bytes_form(pubkey) + (codec::bytes_form(signature))),
        encoded(WireForm::Punch { nonce }) == seq![3u8, 0, 0, 0]
            + codec::le(nonce as nat, 8),
        encoded(WireForm::Cancel { file_id }) == seq![4u8, 0, 0, 0]
            + codec::le(file_id as nat, 8),
        encoded(WireForm::FileMeta { file_id, name, size, offset }) == seq![5u8, 0, 0, 0]
            + (codec::le(file_id as nat, 8) + (
            codec::text_form(name) + (
            codec::le(size as nat, 8) + (
            codec::le(offset as nat, 8))))),
        encoded(WireForm::ResumeQuery { file_id, name, size }) == seq![6u8, 0, 0, 0]
            + (codec::le(file_id as nat, 8) + (
            codec::text_form(name) + (
            codec::le(size as nat, 8)))),
        encoded(WireForm::ResumeAnswer { file_id, offset, ok, reason }) == seq![7u8, 0, 0, 0]
            + (codec::le(file_id as nat, 8) + (
            codec::le(offset as nat, 8) + (
            codec::bool_form(ok) + (
            codec::option_form(reason))))),
        encoded(WireForm::FileChunk { file_id, data }) == seq![8u8, 0, 0, 0]
            + (codec::le(file_id as nat, 8) + (codec::bytes_form(data))),
        encoded(WireForm::FileDone { file_id }) == seq![9u8, 0, 0, 0]
            + codec::le(file_id as nat, 8),
        encoded(WireForm::ObservedEndpoint { addr }) == seq![10u8, 0, 0, 0]
            + codec::addr_form(addr),
        encoded(WireForm::Ping { nonce }) == seq![11u8, 0, 0, 0]
            + codec::le(nonce as nat, 8),
        encoded(WireForm::Pong { nonce }) == seq![12u8, 0, 0, 0]
            + codec::le(nonce as nat, 8),
{
    codec::lemma_small_number(0);
    codec::lemma_small_number(1);
    codec::lemma_small_number(2);
    codec::lemma_small_number(3);
    codec::lemma_small_number(4);
    codec::lemma_small_number(5);
    codec::lemma_small_number(6);
    codec::lemma_small_number(7);
    codec::lemma_small_number(8);
    codec::lemma_small_number(9);
    codec::lemma_small_number(10);
    codec::lemma_small_number(11);
    codec::lemma_small_number(12);
}

proof fn lemma_hello_written_back(s: Seq<u8>)
    requires
        hello_fields(s) is Ok,
    ensures
        seq![0u8, 0, 0, 0] + s == encoded(hello_fields(s)->Ok_0.0)
            + hello_fields(s)->Ok_0.1,
{
    codec::lemma_pow256();
    codec::lemma_small_number(0);
    codec::law_read_numbers_are_written_back(s, 1);
    let (x0, s1) = codec::take_number(s, 1)->Ok_0;
    codec::lemma_regrouped(codec::le(0, 4), codec::le(x0, 1), s1);
}

#[verifier::rlimit(40)]
proof fn lemma_identity_init_written_back(s: Seq<u8>)
    requires
        identity_init_fields(s) is Ok,
    ensures
        seq![1u8, 0, 0, 0] + s == encoded(identity_init_fields(s)->Ok_0.0)
            + identity_init_fields(s)->Ok_0.1,
{
    codec::lemma_pow256();
    codec::lemma_small_number(1);
    codec::law_read_numbers_are_written_back(s, 1);
    let (x0, s1) = codec::take_number(s, 1)->Ok_0;
    codec::lemma_bytes_written_back(s1);
    let (x1, s2) = codec::take_bytes(s1)->Ok_0;
    codec::lemma_exact_written_back(s2, 32);
    let (x2, s3) = codec::take_exact(s2, 32)->Ok_0;
    codec::lemma_option_written_back(s3);
    let (x3, s4) = codec::take_option(s3)->Ok_0;
    let f0 = codec::le(x0, 1);
    let f1 = codec::bytes_form(x1);
    let f2 = x2;
    let f3 = codec::option_form(x3);
    codec::lemma_regrouped(f2, f3, s4);
    codec::lemma_regrouped(f1, f2 + (f3), s4);
    codec::lemma_regrouped(f0, f1 + (f2 + (f3)), s4);
    codec::lemma_regrouped(codec::le(1, 4), f0 + (f1 + (f2 + (f3))), s4);
}

proof fn lemma_identity_ack_written_back(s: Seq<u8>)
    requires
        identity_ack_fields(s) is Ok,
    ensures
        seq![2u8, 0, 0, 0] + s == encoded(identity_ack_fields(s)->Ok_0.0)
            + identity_ack_fields(s)->Ok_0.1,
{
    codec::lemma_pow256();
    codec::lemma_small_number(2);
    codec::lemma_bytes_written_back(s);
    let (x0, s1) = codec::take_bytes(s)->Ok_0;
    codec::lemma_bytes_written_back(s1);
    let (x1, s2) = codec::take_bytes(s1)->Ok_0;
    let f0 = codec::bytes_form(x0);
    let f1 = codec::bytes_form(x1);
    codec::lemma_regrouped(f0, f1, s2);
    codec::lemma_regrouped(codec::le(2, 4), f0 + (f1), s2);
}

proof fn lemma_punch_written_back(s: Seq<u8>)
    requires
        punch_fields(s) is Ok,
    ensures
        seq![3u8, 0, 0, 0] + s == encoded(punch_fields(s)->Ok_0.0)
            + punch_fields(s)->Ok_0.1,
{
    codec::lemma_pow256();
    codec::lemma_small_number(3);
    codec::law_read_numbers_are_written_back(s, 8);
    let (x0, s1) = codec::take_number(s, 8)->Ok_0;
    codec::lemma_regrouped(codec::le(3, 4), codec::le(x0, 8), s1);
}

proof fn lemma_cancel_written_back(s: Seq<u8>)
    requires
        cancel_fields(s) is Ok,
    ensures
        seq![4u8, 0, 0, 0] + s == encoded(cancel_fields(s)->Ok_0.0)
            + cancel_fields(s)->Ok_0.1,
{
    codec::lemma_pow256();
    codec::lemma_small_number(4);
    codec::law_read_numbers_are_written_back(s, 8);
    let (x0, s1) = codec::take_number(s, 8)->Ok_0;
    codec::lemma_regrouped(codec::le(4, 4), codec::le(x0, 8), s1);
}

#[verifier::rlimit(40)]
proof fn lemma_file_meta_written_back(s: Seq<u8>)
    requires
        file_meta_fields(s) is Ok,
    ensures
        seq![5u8, 0, 0, 0] + s == encoded(file_meta_fields(s)->Ok_0.0)
            + file_meta_fields(s)->Ok_0.1,
{
    codec::lemma_pow256();
    codec::lemma_small_number(5);
    codec::law_read_numbers_are_written_back(s, 8);
    let (x0, s1) = codec::take_number(s, 8)->Ok_0;
    codec::lemma_text_written_back(s1);
    let (x1, s2) = codec::take_text(s1)->Ok_0;
    codec::law_read_numbers_are_written_back(s2, 8);
    let (x2, s3) = codec::take_number(s2, 8)->Ok_0;
    codec::law_read_numbers_are_written_back(s3, 8);
    let (x3, s4) = codec::take_number(s3, 8)->Ok_0;
    let f0 = codec::le(x0, 8);
    let f1 = codec::text_form(x1);
    let f2 = codec::le(x2, 8);
    let f3 = codec::le(x3, 8);
    codec::lemma_regrouped(f2, f3, s4);
    codec::lemma_regrouped(f1, f2 + (f3), s4);
    codec::lemma_regrouped(f0, f1 + (f2 + (f3)), s4);
    codec::lemma_regrouped(codec::le(5, 4), f0 + (f1 + (f2 + (f3))), s4);
}

#[verifier::rlimit(40)]
proof fn lemma_resume_query_written_back(s: Seq<u8>)
    requires
        resume_query_fields(s) is Ok,
    ensures
        seq![6u8, 0, 0, 0] + s == encoded(resume_query_fields(s)->Ok_0.0)
            + resume_query_fields(s)->Ok_0.1,
{
    codec::lemma_pow256();
    codec::lemma_small_number(6);
    codec::law_read_numbers_are_written_back(s, 8);
    let (x0, s1) = codec::take_number(s, 8)->Ok_0;
    codec::lemma_text_written_back(s1);
    let (x1, s2) = codec::take_text(s1)->Ok_0;
    codec::law_read_numbers_are_written_back(s2, 8);
    let (x2, s3) = codec::take_number(s2, 8)->Ok_0;
    let f0 = codec::le(x0, 8);
    let f1 = codec::text_form(x1);
    let f2 = codec::le(x2, 8);
    codec::lemma_regrouped(f1, f2, s3);
    codec::lemma_regrouped(f0, f1 + (f2), s3);
    codec::lemma_regrouped(codec::le(6, 4), f0 + (f1 + (f2)), s3);
}

#[verifier::rlimit(40)]
proof fn lemma_resume_answer_written_back(s: Seq<u8>)
    requires
        resume_answer_fields(s) is Ok,
    ensures
        seq![7u8, 0, 0, 0] + s == encoded(resume_answer_fields(s)->Ok_0.0)
            + resume_answer_fields(s)->Ok_0.1,
{
    codec::lemma_pow256();
    codec::lemma_small_number(7);
    codec::law_read_numbers_are_written_back(s, 8);
    let (x0, s1) = codec::take_number(s, 8)->Ok_0;
    codec::law_read_numbers_are_written_back(s1, 8);
    let (x1, s2) = codec::take_number(s1, 8)->Ok_0;
    codec::lemma_bool_written_back(s2);
    let (x2, s3) = codec::take_bool(s2)->Ok_0;
    codec::lemma_option_written_back(s3);
    let (x3, s4) = codec::take_option(s3)->Ok_0;
    let f0 = codec::le(x0, 8);
    let f1 = codec::le(x1, 8);
    let f2 = codec::bool_form(x2);
    let f3 = codec::option_form(x3);
    codec::lemma_regrouped(f2, f3, s4);
    codec::lemma_regrouped(f1, f2 + (f3), s4);
    codec::lemma_regrouped(f0, f1 + (f2 + (f3)), s4);
    codec::lemma_regrouped(codec::le(7, 4), f0 + (f1 + (f2 + (f3))), s4);
}

proof fn lemma_file_chunk_written_back(s: Seq<u8>)
    requires
        file_chunk_fields(s) is Ok,
    ensures
        seq![8u8, 0, 0, 0] + s == encoded(file_chunk_fields(s)->Ok_0.0)
            + file_chunk_fields(s)->Ok_0.1,
{
    codec::lemma_pow256();
    codec::lemma_small_number(8);
    codec::law_read_numbers_are_written_back(s, 8);
    let (x0, s1) = codec::take_number(s, 8)->Ok_0;
    codec::lemma_bytes_written_back(s1);
    let (x1, s2) = codec::take_bytes(s1)->Ok_0;
    let f0 = codec::le(x0, 8);
    let f1 = codec::bytes_form(x1);
    codec::lemma_regrouped(f0, f1, s2);
    codec::lemma_regrouped(codec::le(8, 4), f0 + (f1), s2);
}

proof fn lemma_file_done_written_back(s: Seq<u8>)
    requires
        file_done_fields(s) is Ok,
    ensures
        seq![9u8, 0, 0, 0] + s == encoded(file_done_fields(s)->Ok_0.0)
            + file_done_fields(s)->Ok_0.1,
{
    codec::lemma_pow256();
    codec::lemma_small_number(9);
    codec::law_read_numbers_are_written_back(s, 8);
    let (x0, s1) = codec::take_number(s, 8)->Ok_0;
    codec::lemma_regrouped(codec::le(9, 4), codec::le(x0, 8), s1);
}

proof fn lemma_observed_endpoint_written_back(s: Seq<u8>)
    requires
        observed_endpoint_fields(s) is Ok,
    ensures
        seq![10u8, 0, 0, 0] + s == encoded(observed_endpoint_fields(s)->Ok_0.0)
            + observed_endpoint_fields(s)->Ok_0.1,
{
    codec::lemma_pow256();
    codec::lemma_small_number(10);
    codec::lemma_addr_written_back(s);
    let (x0, s1) = codec::take_addr(s)->Ok_0;
    codec::lemma_regrouped(codec::le(10, 4), codec::addr_form(x0), s1);
}

proof fn lemma_ping_written_back(s: Seq<u8>)
    requires
        ping_fields(s) is Ok,
    ensures
        seq![11u8, 0, 0, 0] + s == encoded(ping_fields(s)->Ok_0.0)
            + ping_fields(s)->Ok_0.1,
{
    codec::lemma_pow256();
    codec::lemma_small_number(11);
    codec::law_read_numbers_are_written_back(s, 8);
    let (x0, s1) = codec::take_number(s, 8)->Ok_0;
    codec::lemma_regrouped(codec::le(11, 4), codec::le(x0, 8), s1);
}

proof fn lemma_pong_written_back(s: Seq<u8>)
    requires
        pong_fields(s) is Ok,
    ensures
        seq![12u8, 0, 0, 0] + s == encoded(pong_fields(s)->Ok_0.0)
            + pong_fields(s)->Ok_0.1,
{
    codec::lemma_pow256();
    codec::lemma_small_number(12);
    codec::law_read_numbers_are_written_back(s, 8);
    let (x0, s1) = codec::take_number(s, 8)->Ok_0;
    codec::lemma_regrouped(codec::le(12, 4), codec::le(x0, 8), s1);
}

/// A message that was read is written as the bytes that it was read from, and those behind it are
/// left: no two rows of bytes are the same message.
#[verifier::rlimit(60)]
pub proof fn law_read_message_is_what_was_written(s: Seq<u8>)
    requires
        decoded_prefix(s) is Ok,
    ensures
        s == encoded(decoded_prefix(s)->Ok_0.0) + decoded_prefix(s)->Ok_0.1,
{
    codec::lemma_pow256();
    codec::law_read_numbers_are_written_back(s, 4);
    let (kind, rest) = codec::take_number(s, 4)->Ok_0;
    if kind == 0 {
        lemma_hello_written_back(rest);
        codec::lemma_small_number(0);
    } else if kind == 1 {
        lemma_identity_init_written_back(rest);
        codec::lemma_small_number(1);
    } else if kind == 2 {
        lemma_identity_ack_written_back(rest);
        codec::lemma_small_number(2);
    } else if kind == 3 {
        lemma_punch_written_back(rest);
        codec::lemma_small_number(3);
    } else if kind == 4 {
        lemma_cancel_written_back(rest);
        codec::lemma_small_number(4);
    } else if kind == 5 {
        lemma_file_meta_written_back(rest);
        codec::lemma_small_number(5);
    } else if kind == 6 {
        lemma_resume_query_written_back(rest);
        codec::lemma_small_number(6);
    } else if kind == 7 {
        lemma_resume_answer_written_back(rest);
        codec::lemma_small_number(7);
    } else if kind == 8 {
        lemma_file_chunk_written_back(rest);
        codec::lemma_small_number(8);
    } else if kind == 9 {
        lemma_file_done_written_back(rest);
        codec::lemma_small_number(9);
    } else if kind == 10 {
        lemma_observed_endpoint_written_back(rest);
        codec::lemma_small_number(10);
    } else if kind == 11 {
        lemma_ping_written_back(rest);
        codec::lemma_small_number(11);
    } else if kind == 12 {
        lemma_pong_written_back(rest);
        codec::lemma_small_number(12);
    }
}

/// A message is refused where its bytes end before its number, or its number stands for none; a field
/// that is refused refuses the message, the first one such, for its own reason.
#[verifier::rlimit(40)]
pub proof fn law_messages_are_refused(s: Seq<u8>, n: nat)
    ensures
        s.len() < 4 ==> decoded_prefix(s) == Err::<(WireForm, Seq<u8>), ErrorForm>(
            ErrorForm { kind: DecodeKind::UnexpectedEnd, words: codec::u32_words(s) },
        ),
        codec::take_number(s, 4) == Ok::<(nat, Seq<u8>), ErrorForm>((n, s.skip(4))) && n >= 13
            ==> decoded_prefix(s) == Err::<(WireForm, Seq<u8>), ErrorForm>(
            ErrorForm {
                kind: DecodeKind::UnknownVariant,
                words: "invalid value: integer `"@ + text::decimal(n) + "`, expected "@
                    + "variant index 0 <= i < 13"@,
            },
        ),
        codec::take_number(s, 4) == Ok::<(nat, Seq<u8>), ErrorForm>((0nat, s.skip(4))) ==> {
            let r = decoded_prefix(s);
            let first = codec::take_number(s.skip(4), 1);
            &&& first is Err ==> r is Err && r->Err_0 == first->Err_0
        },
        codec::take_number(s, 4) == Ok::<(nat, Seq<u8>), ErrorForm>((1nat, s.skip(4))) ==> {
            let r = decoded_prefix(s);
            let first = codec::take_number(s.skip(4), 1);
            let second = codec::take_bytes(first->Ok_0.1);
            let third = codec::take_exact(second->Ok_0.1, 32);
            let fourth = codec::take_option(third->Ok_0.1);
            &&& first is Err ==> r is Err && r->Err_0 == first->Err_0
            &&& first is Ok && second is Err ==> r is Err && r->Err_0 == second->Err_0
            &&& first is Ok && second is Ok && third is Err ==> r is Err && r->Err_0 == third->Err_0
            &&& first is Ok && second is Ok && third is Ok && fourth is Err ==> r is Err
                && r->Err_0 == fourth->Err_0
        },
        codec::take_number(s, 4) == Ok::<(nat, Seq<u8>), ErrorForm>((2nat, s.skip(4))) ==> {
            let r = decoded_prefix(s);
            let first = codec::take_bytes(s.skip(4));
            let second = codec::take_bytes(first->Ok_0.1);
            &&& first is Err ==> r is Err && r->Err_0 == first->Err_0
            &&& first is Ok && second is Err ==> r is Err && r->Err_0 == second->Err_0
        },
        codec::take_number(s, 4) == Ok::<(nat, Seq<u8>), ErrorForm>((3nat, s.skip(4))) ==> {
            let r = decoded_prefix(s);
            let first = codec::take_number(s.skip(4), 8);
            &&& first is Err ==> r is Err && r->Err_0 == first->Err_0
        },
        codec::take_number(s, 4) == Ok::<(nat, Seq<u8>), ErrorForm>((4nat, s.skip(4))) ==> {
            let r = decoded_prefix(s);
            let first = codec::take_number(s.skip(4), 8);
            &&& first is Err ==> r is Err && r->Err_0 == first->Err_0
        },
        codec::take_number(s, 4) == Ok::<(nat, Seq<u8>), ErrorForm>((5nat, s.skip(4))) ==> {
            let r = decoded_prefix(s);
            let first = codec::take_number(s.skip(4), 8);
            let second = codec::take_text(first->Ok_0.1);
            let third = codec::take_number(second->Ok_0.1, 8);
            let fourth = codec::take_number(third->Ok_0.1, 8);
            &&& first is Err ==> r is Err && r->Err_0 == first->Err_0
            &&& first is Ok && second is Err ==> r is Err && r->Err_0 == second->Err_0
            &&& first is Ok && second is Ok && third is Err ==> r is Err && r->Err_0 == third->Err_0
            &&& first is Ok && second is Ok && third is Ok && fourth is Err ==> r is Err
                && r->Err_0 == fourth->Err_0
        },
        codec::take_number(s, 4) == Ok::<(nat, Seq<u8>), ErrorForm>((6nat, s.skip(4))) ==> {
            let r = decoded_prefix(s);
            let first = codec::take_number(s.skip(4), 8);
            let second = codec::take_text(first->Ok_0.1);
            let third = codec::take_number(second->Ok_0.1, 8);
            &&& first is Err ==> r is Err && r->Err_0 == first->Err_0
            &&& first is Ok && second is Err ==> r is Err && r->Err_0 == second->Err_0
            &&& first is Ok && second is Ok && third is Err ==> r is Err && r->Err_0 == third->Err_0
        },
        codec::take_number(s, 4) == Ok::<(nat, Seq<u8>), ErrorForm>((7nat, s.skip(4))) ==> {
            let r = decoded_prefix(s);
            let first = codec::take_number(s.skip(4), 8);
            let second = codec::take_number(first->Ok_0.1, 8);
            let third = codec::take_bool(second->Ok_0.1);
            let fourth = codec::take_option(third->Ok_0.1);
            &&& first is Err ==> r is Err && r->Err_0 == first->Err_0
            &&& first is Ok && second is Err ==> r is Err && r->Err_0 == second->Err_0
            &&& first is Ok && second is Ok && third is Err ==> r is Err && r->Err_0 == third->Err_0
            &&& first is Ok && second is Ok && third is Ok && fourth is Err ==> r is Err
                && r->Err_0 == fourth->Err_0
        },
        codec::take_number(s, 4) == Ok::<(nat, Seq<u8>), ErrorForm>((8nat, s.skip(4))) ==> {
            let r = decoded_prefix(s);
            let first = codec::take_number(s.skip(4), 8);
            let second = codec::take_bytes(first->Ok_0.1);
            &&& first is Err ==> r is Err && r->Err_0 == first->Err_0
            &&& first is Ok && second is Err ==> r is Err && r->Err_0 == second->Err_0
        },
        codec::take_number(s, 4) == Ok::<(nat, Seq<u8>), ErrorForm>((9nat, s.skip(4))) ==> {
            let r = decoded_prefix(s);
            let first = codec::take_number(s.skip(4), 8);
            &&& first is Err ==> r is Err && r->Err_0 == first->Err_0
        },
        codec::take_number(s, 4) == Ok::<(nat, Seq<u8>), ErrorForm>((10nat, s.skip(4))) ==> {
            let r = decoded_prefix(s);
            let first = codec::take_addr(s.skip(4));
            &&& first is Err ==> r is Err && r->Err_0 == first->Err_0
        },
        codec::take_number(s, 4) == Ok::<(nat, Seq<u8>), ErrorForm>((11nat, s.skip(4))) ==> {
            let r = decoded_prefix(s);
            let first = codec::take_number(s.skip(4), 8);
            &&& first is Err ==> r is Err && r->Err_0 == first->Err_0
        },
        codec::take_number(s, 4) == Ok::<(nat, Seq<u8>), ErrorForm>((12nat, s.skip(4))) ==> {
            let r = decoded_prefix(s);
            let first = codec::take_number(s.skip(4), 8);
            &&& first is Err ==> r is Err && r->Err_0 == first->Err_0
        },
{
}

/// Bytes behind a message are refused, and a message without such is read whole.
pub proof fn law_message_is_read_to_the_end(s: Seq<u8>, m: WireForm, rest: Seq<u8>)
    ensures
        decoded_prefix(s) == Ok::<(WireForm, Seq<u8>), ErrorForm>((m, rest)) && rest.len() == 0
            ==> decoded(s) == Ok::<WireForm, ErrorForm>(m),
        decoded_prefix(s) == Ok::<(WireForm, Seq<u8>), ErrorForm>((m, rest)) && rest.len() > 0
            ==> decoded(s) == Err::<WireForm, ErrorForm>(
            ErrorForm {
                kind: DecodeKind::TrailingBytes,
                words: "Slice had bytes remaining after deserialization"@,
            },
        ),
        decoded_prefix(s) is Err ==> decoded(s) == Err::<WireForm, ErrorForm>(
            decoded_prefix(s)->Err_0,
        ),
{
}

/// What arrives of a message is the message, but that an address loses what a socket adds; only a
/// challenge of thirty-two bytes can be sent.
pub proof fn law_messages_arrive(m: WireForm)
    ensures
        !(m is ObservedEndpoint) ==> arriving(m) == m,
        m is ObservedEndpoint ==> arriving(m) == (WireForm::ObservedEndpoint {
            addr: codec::addr_sent(m->addr),
        }),
        m is IdentityInit ==> (sendable(m) <==> m->challenge.len() == 32),
        !(m is IdentityInit) ==> sendable(m),
{
}

/// A payload is read as it is where that is a message; else as the bytes that its text stands for,
/// where it is such a text and they are a message; else it is refused for the first reason.
pub proof fn law_payload_is_read_either_way(payload: Seq<u8>, m: WireForm, bytes: Seq<u8>)
    ensures
        decoded(payload) == Ok::<WireForm, ErrorForm>(m) ==> decoded_either(
            payload,
            unpacked(payload),
        ) == Ok::<WireForm, ErrorForm>(m),
        decoded(payload) is Err && vstd::utf8::valid_utf8(payload) && base64_bytes(
            vstd::utf8::decode_utf8(payload),
        ) == Some(bytes) && decoded(bytes) == Ok::<WireForm, ErrorForm>(m) ==> decoded_either(
            payload,
            unpacked(payload),
        ) == Ok::<WireForm, ErrorForm>(m),
        decoded(payload) is Err && (!vstd::utf8::valid_utf8(payload) || base64_bytes(
            vstd::utf8::decode_utf8(payload),
        ) is None || base64_bytes(vstd::utf8::decode_utf8(payload)) == Some(bytes) && decoded(
            bytes,
        ) is Err) ==> decoded_either(payload, unpacked(payload)) == Err::<WireForm, ErrorForm>(
            decoded(payload)->Err_0,
        ),
{
}

/// What was read is what is said of the bytes: the message and the bytes behind it, or the reason why
/// there is none.
pub proof fn law_reading_says_what_is_there(
    r: Result<WireMessage, DecodeError>,
    said: Result<(WireForm, Seq<u8>), ErrorForm>,
    rest: Seq<u8>,
)
    requires
        read_as(r, said, rest),
    ensures
        r is Ok <==> said is Ok,
        r is Ok ==> said->Ok_0 == (r->Ok_0@, rest),
        r is Err ==> said->Err_0 == r->Err_0@,
{
}

} // verus!
