//! The messages of the packet transport.

use vstd::prelude::*;

use crate::net::codec;
use crate::net::codec::{DecodeError, DecodeKind, ErrorForm, Reader};
use crate::text;

verus! {

/// A message between peers.
#[derive(Clone, Debug)]
pub enum PacketMessage {
    Hello { version: u8 },
    Punch { nonce: u64 },
    Cancel { file_id: u64 },
    FileMeta { file_id: u64, name: String, size: u64 },
    FileChunk { file_id: u64, data: Vec<u8> },
    FileDone { file_id: u64 },
}

/// What a message says, as a value of mathematics.
pub enum PacketForm {
    Hello { version: u8 },
    Punch { nonce: u64 },
    Cancel { file_id: u64 },
    FileMeta { file_id: u64, name: Seq<char>, size: u64 },
    FileChunk { file_id: u64, data: Seq<u8> },
    FileDone { file_id: u64 },
}

impl View for PacketMessage {
    type V = PacketForm;

    open spec fn view(&self) -> PacketForm {
        match *self {
            PacketMessage::Hello { version } => PacketForm::Hello { version },
            PacketMessage::Punch { nonce } => PacketForm::Punch { nonce },
            PacketMessage::Cancel { file_id } => PacketForm::Cancel { file_id },
            PacketMessage::FileMeta { file_id, name, size } => PacketForm::FileMeta {
                file_id,
                name: name@,
                size,
            },
            PacketMessage::FileChunk { file_id, data } => PacketForm::FileChunk {
                file_id,
                data: data@,
            },
            PacketMessage::FileDone { file_id } => PacketForm::FileDone { file_id },
        }
    }
}

/// The bytes of a message: the index of its kind, then its fields in order.
pub open spec fn encoded(m: PacketForm) -> Seq<u8> {
    match m {
        PacketForm::Hello { version } => codec::le(0, 4) + codec::le(version as nat, 1),
        PacketForm::Punch { nonce } => codec::le(1, 4) + codec::le(nonce as nat, 8),
        PacketForm::Cancel { file_id } => codec::le(2, 4) + codec::le(file_id as nat, 8),
        PacketForm::FileMeta { file_id, name, size } => codec::le(3, 4)
            + (codec::le(file_id as nat, 8)
            + (codec::text_form(name)
            + (codec::le(size as nat, 8)))),
        PacketForm::FileChunk { file_id, data } => codec::le(4, 4)
            + (codec::le(file_id as nat, 8)
            + (codec::bytes_form(data))),
        PacketForm::FileDone { file_id } => codec::le(5, 4) + codec::le(file_id as nat, 8),
    }
}

/// The fields of `Hello`, and the bytes behind them.
pub open spec fn hello_fields(s: Seq<u8>) -> Result<(PacketForm, Seq<u8>), ErrorForm> {
    match codec::take_number(s, 1) {
        Ok((version, s1)) => Ok((PacketForm::Hello { version: version as u8 }, s1)),
        Err(e) => Err(e),
    }
}

/// The fields of `Punch`, and the bytes behind them.
pub open spec fn punch_fields(s: Seq<u8>) -> Result<(PacketForm, Seq<u8>), ErrorForm> {
    match codec::take_number(s, 8) {
        Ok((nonce, s1)) => Ok((PacketForm::Punch { nonce: nonce as u64 }, s1)),
        Err(e) => Err(e),
    }
}

/// The fields of `Cancel`, and the bytes behind them.
pub open spec fn cancel_fields(s: Seq<u8>) -> Result<(PacketForm, Seq<u8>), ErrorForm> {
    match codec::take_number(s, 8) {
        Ok((file_id, s1)) => Ok((PacketForm::Cancel { file_id: file_id as u64 }, s1)),
        Err(e) => Err(e),
    }
}

/// The fields of `FileMeta`, and the bytes behind them.
pub open spec fn file_meta_fields(s: Seq<u8>) -> Result<(PacketForm, Seq<u8>), ErrorForm> {
    match codec::take_number(s, 8) {
        Ok((file_id, s1)) => match codec::take_text(s1) {
            Ok((name, s2)) => match codec::take_number(s2, 8) {
                Ok((size, s3)) => Ok((PacketForm::FileMeta {
                    file_id: file_id as u64,
                    name,
                    size: size as u64,
                }, s3)),
                Err(e) => Err(e),
            },
            Err(e) => Err(e),
        },
        Err(e) => Err(e),
    }
}

/// The fields of `FileChunk`, and the bytes behind them.
pub open spec fn file_chunk_fields(s: Seq<u8>) -> Result<(PacketForm, Seq<u8>), ErrorForm> {
    match codec::take_number(s, 8) {
        Ok((file_id, s1)) => match codec::take_bytes(s1) {
            Ok((data, s2)) => Ok((PacketForm::FileChunk { file_id: file_id as u64, data }, s2)),
            Err(e) => Err(e),
        },
        Err(e) => Err(e),
    }
}

/// The fields of `FileDone`, and the bytes behind them.
pub open spec fn file_done_fields(s: Seq<u8>) -> Result<(PacketForm, Seq<u8>), ErrorForm> {
    match codec::take_number(s, 8) {
        Ok((file_id, s1)) => Ok((PacketForm::FileDone { file_id: file_id as u64 }, s1)),
        Err(e) => Err(e),
    }
}

/// The fields of the message kind with this index, and the bytes behind them.
pub open spec fn fields(kind: nat, s: Seq<u8>) -> Result<(PacketForm, Seq<u8>), ErrorForm> {
    if kind == 0 {
        hello_fields(s)
    } else if kind == 1 {
        punch_fields(s)
    } else if kind == 2 {
        cancel_fields(s)
    } else if kind == 3 {
        file_meta_fields(s)
    } else if kind == 4 {
        file_chunk_fields(s)
    } else if kind == 5 {
        file_done_fields(s)
    } else {
        Err(codec::no_variant(kind, "variant index 0 <= i < 6"@))
    }
}

/// A message at the front of bytes, and the bytes behind it.
pub open spec fn decoded_prefix(s: Seq<u8>) -> Result<(PacketForm, Seq<u8>), ErrorForm> {
    match codec::take_number(s, 4) {
        Ok((kind, rest)) => fields(kind, rest),
        Err(e) => Err(e),
    }
}

/// Whether what was read is what the grammar says, with `rest` behind it.
pub open spec fn read_as(
    r: Result<PacketMessage, DecodeError>,
    said: Result<(PacketForm, Seq<u8>), ErrorForm>,
    rest: Seq<u8>,
) -> bool {
    match r {
        Ok(m) => said == Ok::<(PacketForm, Seq<u8>), ErrorForm>((m@, rest)),
        Err(e) => said == Err::<(PacketForm, Seq<u8>), ErrorForm>(e@),
    }
}

fn read_hello(input: &mut Reader) -> (r: Result<PacketMessage, DecodeError>)
    requires
        old(input).wf(),
    ensures
        final(input).wf(),
        final(input).data == old(input).data,
        read_as(r, hello_fields(old(input).rest()), final(input).rest()),
{
    let version: u8 = match input.get_u8() {
        Ok(v) => v,
        Err(e) => {
            return Err(e);
        },
    };
    Ok(PacketMessage::Hello { version })
}

fn read_punch(input: &mut Reader) -> (r: Result<PacketMessage, DecodeError>)
    requires
        old(input).wf(),
    ensures
        final(input).wf(),
        final(input).data == old(input).data,
        read_as(r, punch_fields(old(input).rest()), final(input).rest()),
{
    let nonce: u64 = match input.get_u64() {
        Ok(v) => v,
        Err(e) => {
            return Err(e);
        },
    };
    Ok(PacketMessage::Punch { nonce })
}

fn read_cancel(input: &mut Reader) -> (r: Result<PacketMessage, DecodeError>)
    requires
        old(input).wf(),
    ensures
        final(input).wf(),
        final(input).data == old(input).data,
        read_as(r, cancel_fields(old(input).rest()), final(input).rest()),
{
    let file_id: u64 = match input.get_u64() {
        Ok(v) => v,
        Err(e) => {
            return Err(e);
        },
    };
    Ok(PacketMessage::Cancel { file_id })
}

fn read_file_meta(input: &mut Reader) -> (r: Result<PacketMessage, DecodeError>)
    requires
        old(input).wf(),
    ensures
        final(input).wf(),
        final(input).data == old(input).data,
        read_as(r, file_meta_fields(old(input).rest()), final(input).rest()),
{
    let file_id: u64 = match input.get_u64() {
        Ok(v) => v,
        Err(e) => {
            return Err(e);
        },
    };
    let name = match input.get_text() {
        Ok(v) => v,
        Err(e) => {
            return Err(e);
        },
    };
    let size: u64 = match input.get_u64() {
        Ok(v) => v,
        Err(e) => {
            return Err(e);
        },
    };
    Ok(PacketMessage::FileMeta { file_id, name, size })
}

fn read_file_chunk(input: &mut Reader) -> (r: Result<PacketMessage, DecodeError>)
    requires
        old(input).wf(),
    ensures
        final(input).wf(),
        final(input).data == old(input).data,
        read_as(r, file_chunk_fields(old(input).rest()), final(input).rest()),
{
    let file_id: u64 = match input.get_u64() {
        Ok(v) => v,
        Err(e) => {
            return Err(e);
        },
    };
    let data = match input.get_bytes() {
        Ok(v) => v,
        Err(e) => {
            return Err(e);
        },
    };
    Ok(PacketMessage::FileChunk { file_id, data })
}

fn read_file_done(input: &mut Reader) -> (r: Result<PacketMessage, DecodeError>)
    requires
        old(input).wf(),
    ensures
        final(input).wf(),
        final(input).data == old(input).data,
        read_as(r, file_done_fields(old(input).rest()), final(input).rest()),
{
    let file_id: u64 = match input.get_u64() {
        Ok(v) => v,
        Err(e) => {
            return Err(e);
        },
    };
    Ok(PacketMessage::FileDone { file_id })
}

/// Reads the fields of the message kind with index `kind`.
fn read_fields(kind: u32, input: &mut Reader) -> (r: Result<PacketMessage, DecodeError>)
    requires
        old(input).wf(),
    ensures
        final(input).wf(),
        final(input).data == old(input).data,
        read_as(r, fields(kind as nat, old(input).rest()), final(input).rest()),
{
    match kind {
        0 => read_hello(input),
        1 => read_punch(input),
        2 => read_cancel(input),
        3 => read_file_meta(input),
        4 => read_file_chunk(input),
        5 => read_file_done(input),
        _ => Err(codec::unknown_variant(kind, "variant index 0 <= i < 6")),
    }
}

/// Encodes a message. The result has to fit in one allocation.
pub fn serialize_packet(message: &PacketMessage) -> (r: Vec<u8>)
    requires
        encoded(message@).len() <= isize::MAX,
    ensures
        r@ == encoded(message@),
{
    let mut out: Vec<u8> = Vec::new();
    match message {
        PacketMessage::Hello { version } => {
            codec::put_u32(&mut out, 0);
            codec::put_u8(&mut out, *version);
        },
        PacketMessage::Punch { nonce } => {
            codec::put_u32(&mut out, 1);
            codec::put_u64(&mut out, *nonce);
        },
        PacketMessage::Cancel { file_id } => {
            codec::put_u32(&mut out, 2);
            codec::put_u64(&mut out, *file_id);
        },
        PacketMessage::FileMeta { file_id, name, size } => {
            codec::put_u32(&mut out, 3);
            codec::put_u64(&mut out, *file_id);
            codec::put_text(&mut out, name.as_str());
            codec::put_u64(&mut out, *size);
        },
        PacketMessage::FileChunk { file_id, data } => {
            codec::put_u32(&mut out, 4);
            codec::put_u64(&mut out, *file_id);
            codec::put_bytes(&mut out, data.as_slice());
        },
        PacketMessage::FileDone { file_id } => {
            codec::put_u32(&mut out, 5);
            codec::put_u64(&mut out, *file_id);
        },
    }
    assert(out@ =~= encoded(message@));
    out
}

/// Decodes the message at the front of a packet. What stands behind it is passed over.
pub fn deserialize_packet(bytes: &[u8]) -> (r: Result<PacketMessage, DecodeError>)
    ensures
        match r {
            Ok(m) => decoded_prefix(bytes@) matches Ok((form, _)) && form == m@,
            Err(e) => decoded_prefix(bytes@) == Err::<(PacketForm, Seq<u8>), ErrorForm>(e@),
        },
{
    let mut input = Reader::new(bytes);
    let kind: u32 = match input.get_u32() {
        Ok(v) => v,
        Err(e) => {
            return Err(e);
        },
    };
    read_fields(kind, &mut input)
}

/// A packet that begins with an encoded message is read as that message, whatever stands
/// behind it.
pub proof fn law_packet_is_read(m: PacketForm, rest: Seq<u8>)
    requires
        encoded(m).len() <= u64::MAX,
    ensures
        decoded_prefix(encoded(m) + rest) == Ok::<(PacketForm, Seq<u8>), ErrorForm>((m, rest)),
{
    lemma_message_prefix(m, rest);
}

proof fn lemma_hello_read(m: PacketForm, rest: Seq<u8>)
    requires
        m is Hello,
        encoded(m).len() <= u64::MAX,
    ensures
        decoded_prefix(encoded(m) + rest) == Ok::<(PacketForm, Seq<u8>), ErrorForm>((m, rest)),
{
    if let PacketForm::Hello { version } = m {
        codec::lemma_pow256();
        codec::lemma_number_read(0, 4, codec::le(version as nat, 1) + rest);
        codec::lemma_number_read(version as nat, 1, rest);
        assert(encoded(m) + rest =~= codec::le(0, 4) + (codec::le(version as nat, 1) + rest));
    }
}

proof fn lemma_punch_read(m: PacketForm, rest: Seq<u8>)
    requires
        m is Punch,
        encoded(m).len() <= u64::MAX,
    ensures
        decoded_prefix(encoded(m) + rest) == Ok::<(PacketForm, Seq<u8>), ErrorForm>((m, rest)),
{
    if let PacketForm::Punch { nonce } = m {
        codec::lemma_pow256();
        codec::lemma_number_read(1, 4, codec::le(nonce as nat, 8) + rest);
        codec::lemma_number_read(nonce as nat, 8, rest);
        assert(encoded(m) + rest =~= codec::le(1, 4) + (codec::le(nonce as nat, 8) + rest));
    }
}

proof fn lemma_cancel_read(m: PacketForm, rest: Seq<u8>)
    requires
        m is Cancel,
        encoded(m).len() <= u64::MAX,
    ensures
        decoded_prefix(encoded(m) + rest) == Ok::<(PacketForm, Seq<u8>), ErrorForm>((m, rest)),
{
    if let PacketForm::Cancel { file_id } = m {
        codec::lemma_pow256();
        codec::lemma_number_read(2, 4, codec::le(file_id as nat, 8) + rest);
        codec::lemma_number_read(file_id as nat, 8, rest);
        assert(encoded(m) + rest =~= codec::le(2, 4) + (codec::le(file_id as nat, 8) + rest));
    }
}

proof fn lemma_file_meta_read(m: PacketForm, rest: Seq<u8>)
    requires
        m is FileMeta,
        encoded(m).len() <= u64::MAX,
    ensures
        decoded_prefix(encoded(m) + rest) == Ok::<(PacketForm, Seq<u8>), ErrorForm>((m, rest)),
{
    if let PacketForm::FileMeta { file_id, name, size } = m {
        codec::lemma_pow256();
        codec::lemma_number_read(
            3,
            4,
            codec::le(file_id as nat, 8)
                + (codec::text_form(name)
                + (codec::le(size as nat, 8)
                + rest)),
        );
        codec::lemma_number_read(
            file_id as nat,
            8,
            codec::text_form(name) + (codec::le(size as nat, 8) + rest),
        );
        codec::lemma_text_read(name, codec::le(size as nat, 8) + rest);
        codec::lemma_number_read(size as nat, 8, rest);
        assert(encoded(m) + rest =~= codec::le(3, 4)
            + (codec::le(file_id as nat, 8)
            + (codec::text_form(name)
            + (codec::le(size as nat, 8)
            + rest))));
    }
}

proof fn lemma_file_chunk_read(m: PacketForm, rest: Seq<u8>)
    requires
        m is FileChunk,
        encoded(m).len() <= u64::MAX,
    ensures
        decoded_prefix(encoded(m) + rest) == Ok::<(PacketForm, Seq<u8>), ErrorForm>((m, rest)),
{
    if let PacketForm::FileChunk { file_id, data } = m {
        codec::lemma_pow256();
        codec::lemma_number_read(
            4,
            4,
            codec::le(file_id as nat, 8) + (codec::bytes_form(data) + rest),
        );
        codec::lemma_number_read(file_id as nat, 8, codec::bytes_form(data) + rest);
        codec::lemma_bytes_read(data, rest);
        assert(encoded(m) + rest =~= codec::le(4, 4)
            + (codec::le(file_id as nat, 8)
            + (codec::bytes_form(data)
            + rest)));
    }
}

proof fn lemma_file_done_read(m: PacketForm, rest: Seq<u8>)
    requires
        m is FileDone,
        encoded(m).len() <= u64::MAX,
    ensures
        decoded_prefix(encoded(m) + rest) == Ok::<(PacketForm, Seq<u8>), ErrorForm>((m, rest)),
{
    if let PacketForm::FileDone { file_id } = m {
        codec::lemma_pow256();
        codec::lemma_number_read(5, 4, codec::le(file_id as nat, 8) + rest);
        codec::lemma_number_read(file_id as nat, 8, rest);
        assert(encoded(m) + rest =~= codec::le(5, 4) + (codec::le(file_id as nat, 8) + rest));
    }
}

proof fn lemma_message_prefix(m: PacketForm, rest: Seq<u8>)
    requires
        encoded(m).len() <= u64::MAX,
    ensures
        decoded_prefix(encoded(m) + rest) == Ok::<(PacketForm, Seq<u8>), ErrorForm>((m, rest)),
{
    match m {
        PacketForm::Hello { .. } => lemma_hello_read(m, rest),
        PacketForm::Punch { .. } => lemma_punch_read(m, rest),
        PacketForm::Cancel { .. } => lemma_cancel_read(m, rest),
        PacketForm::FileMeta { .. } => lemma_file_meta_read(m, rest),
        PacketForm::FileChunk { .. } => lemma_file_chunk_read(m, rest),
        PacketForm::FileDone { .. } => lemma_file_done_read(m, rest),
    }
}

// ---------------------------------------------------------------- laws

/// A packet is written by its number in four bytes and its fields in their order.
pub proof fn law_packets_are_written(
    version: u8,
    nonce: u64,
    file_id: u64,
    name: Seq<char>,
    size: u64,
    data: Seq<u8>,
)
    ensures
        encoded(PacketForm::Hello { version }) == seq![0u8, 0, 0, 0]
            + codec::le(version as nat, 1),
        encoded(PacketForm::Punch { nonce }) == seq![1u8, 0, 0, 0]
            + codec::le(nonce as nat, 8),
        encoded(PacketForm::Cancel { file_id }) == seq![2u8, 0, 0, 0]
            + codec::le(file_id as nat, 8),
        encoded(PacketForm::FileMeta { file_id, name, size }) == seq![3u8, 0, 0, 0]
            + (codec::le(file_id as nat, 8) + (
            codec::text_form(name) + (
            codec::le(size as nat, 8)))),
        encoded(PacketForm::FileChunk { file_id, data }) == seq![4u8, 0, 0, 0]
            + (codec::le(file_id as nat, 8) + (codec::bytes_form(data))),
        encoded(PacketForm::FileDone { file_id }) == seq![5u8, 0, 0, 0]
            + codec::le(file_id as nat, 8),
{
    codec::lemma_small_number(0);
    codec::lemma_small_number(1);
    codec::lemma_small_number(2);
    codec::lemma_small_number(3);
    codec::lemma_small_number(4);
    codec::lemma_small_number(5);
}

proof fn lemma_hello_written_back(s: Seq<u8>)
    requires
        hello_fields(s) is Ok,
    ensures
        seq![0u8, 0, 0, 0] + s == encoded(hello_fields(s)->Ok_0.0)
            + hello_fields(s)->Ok_0.1,
{
    codec::lemma_pow256();
    codec::lemma_small_number(0);
    codec::law_read_numbers_are_written_back(s, 1);
    let (x0, s1) = codec::take_number(s, 1)->Ok_0;
    codec::lemma_regrouped(codec::le(0, 4), codec::le(x0, 1), s1);
}

proof fn lemma_punch_written_back(s: Seq<u8>)
    requires
        punch_fields(s) is Ok,
    ensures
        seq![1u8, 0, 0, 0] + s == encoded(punch_fields(s)->Ok_0.0)
            + punch_fields(s)->Ok_0.1,
{
    codec::lemma_pow256();
    codec::lemma_small_number(1);
    codec::law_read_numbers_are_written_back(s, 8);
    let (x0, s1) = codec::take_number(s, 8)->Ok_0;
    codec::lemma_regrouped(codec::le(1, 4), codec::le(x0, 8), s1);
}

proof fn lemma_cancel_written_back(s: Seq<u8>)
    requires
        cancel_fields(s) is Ok,
    ensures
        seq![2u8, 0, 0, 0] + s == encoded(cancel_fields(s)->Ok_0.0)
            + cancel_fields(s)->Ok_0.1,
{
    codec::lemma_pow256();
    codec::lemma_small_number(2);
    codec::law_read_numbers_are_written_back(s, 8);
    let (x0, s1) = codec::take_number(s, 8)->Ok_0;
    codec::lemma_regrouped(codec::le(2, 4), codec::le(x0, 8), s1);
}

proof fn lemma_file_meta_written_back(s: Seq<u8>)
    requires
        file_meta_fields(s) is Ok,
    ensures
        seq![3u8, 0, 0, 0] + s == encoded(file_meta_fields(s)->Ok_0.0)
            + file_meta_fields(s)->Ok_0.1,
{
    codec::lemma_pow256();
    codec::lemma_small_number(3);
    codec::law_read_numbers_are_written_back(s, 8);
    let (x0, s1) = codec::take_number(s, 8)->Ok_0;
    codec::lemma_text_written_back(s1);
    let (x1, s2) = codec::take_text(s1)->Ok_0;
    codec::law_read_numbers_are_written_back(s2, 8);
    let (x2, s3) = codec::take_number(s2, 8)->Ok_0;
    let f0 = codec::le(x0, 8);
    let f1 = codec::text_form(x1);
    let f2 = codec::le(x2, 8);
    codec::lemma_regrouped(f1, f2, s3);
    codec::lemma_regrouped(f0, f1 + (f2), s3);
    codec::lemma_regrouped(codec::le(3, 4), f0 + (f1 + (f2)), s3);
}

proof fn lemma_file_chunk_written_back(s: Seq<u8>)
    requires
        file_chunk_fields(s) is Ok,
    ensures
        seq![4u8, 0, 0, 0] + s == encoded(file_chunk_fields(s)->Ok_0.0)
            + file_chunk_fields(s)->Ok_0.1,
{
    codec::lemma_pow256();
    codec::lemma_small_number(4);
    codec::law_read_numbers_are_written_back(s, 8);
    let (x0, s1) = codec::take_number(s, 8)->Ok_0;
    codec::lemma_bytes_written_back(s1);
    let (x1, s2) = codec::take_bytes(s1)->Ok_0;
    let f0 = codec::le(x0, 8);
    let f1 = codec::bytes_form(x1);
    codec::lemma_regrouped(f0, f1, s2);
    codec::lemma_regrouped(codec::le(4, 4), f0 + (f1), s2);
}

proof fn lemma_file_done_written_back(s: Seq<u8>)
    requires
        file_done_fields(s) is Ok,
    ensures
        seq![5u8, 0, 0, 0] + s == encoded(file_done_fields(s)->Ok_0.0)
            + file_done_fields(s)->Ok_0.1,
{
    codec::lemma_pow256();
    codec::lemma_small_number(5);
    codec::law_read_numbers_are_written_back(s, 8);
    let (x0, s1) = codec::take_number(s, 8)->Ok_0;
    codec::lemma_regrouped(codec::le(5, 4), codec::le(x0, 8), s1);
}

/// A packet that was read is written as the bytes that it was read from, and those behind it are
/// left: no two rows of bytes are the same packet.
pub proof fn law_read_packet_is_what_was_written(s: Seq<u8>)
    requires
        decoded_prefix(s) is Ok,
    ensures
        s == encoded(decoded_prefix(s)->Ok_0.0) + decoded_prefix(s)->Ok_0.1,
{
    codec::lemma_pow256();
    codec::law_read_numbers_are_written_back(s, 4);
    let (kind, rest) = codec::take_number(s, 4)->Ok_0;
    if kind == 0 {
        lemma_hello_written_back(rest);
        codec::lemma_small_number(0);
    } else if kind == 1 {
        lemma_punch_written_back(rest);
        codec::lemma_small_number(1);
    } else if kind == 2 {
        lemma_cancel_written_back(rest);
        codec::lemma_small_number(2);
    } else if kind == 3 {
        lemma_file_meta_written_back(rest);
        codec::lemma_small_number(3);
    } else if kind == 4 {
        lemma_file_chunk_written_back(rest);
        codec::lemma_small_number(4);
    } else if kind == 5 {
        lemma_file_done_written_back(rest);
        codec::lemma_small_number(5);
    }
}

/// A packet is refused where its bytes end before its number, or its number stands for none; a field
/// that is refused refuses the packet, the first one such, for its own reason.
pub proof fn law_packets_are_refused(s: Seq<u8>, n: nat)
    ensures
        s.len() < 4 ==> decoded_prefix(s) == Err::<(PacketForm, Seq<u8>), ErrorForm>(
            ErrorForm { kind: DecodeKind::UnexpectedEnd, words: codec::u32_words(s) },
        ),
        codec::take_number(s, 4) == Ok::<(nat, Seq<u8>), ErrorForm>((n, s.skip(4))) && n >= 6
            ==> decoded_prefix(s) == Err::<(PacketForm, Seq<u8>), ErrorForm>(
            ErrorForm {
                kind: DecodeKind::UnknownVariant,
                words: "invalid value: integer `"@ + text::decimal(n) + "`, expected "@
                    + "variant index 0 <= i < 6"@,
            },
        ),
        codec::take_number(s, 4) == Ok::<(nat, Seq<u8>), ErrorForm>((0nat, s.skip(4))) ==> {
            let r = decoded_prefix(s);
            let first = codec::take_number(s.skip(4), 1);
            &&& first is Err ==> r is Err && r->Err_0 == first->Err_0
        },
        codec::take_number(s, 4) == Ok::<(nat, Seq<u8>), ErrorForm>((1nat, s.skip(4))) ==> {
            let r = decoded_prefix(s);
            let first = codec::take_number(s.skip(4), 8);
            &&& first is Err ==> r is Err && r->Err_0 == first->Err_0
        },
        codec::take_number(s, 4) == Ok::<(nat, Seq<u8>), ErrorForm>((2nat, s.skip(4))) ==> {
            let r = decoded_prefix(s);
            let first = codec::take_number(s.skip(4), 8);
            &&& first is Err ==> r is Err && r->Err_0 == first->Err_0
        },
        codec::take_number(s, 4) == Ok::<(nat, Seq<u8>), ErrorForm>((3nat, s.skip(4))) ==> {
            let r = decoded_prefix(s);
            let first = codec::take_number(s.skip(4), 8);
            let second = codec::take_text(first->Ok_0.1);
            let third = codec::take_number(second->Ok_0.1, 8);
            &&& first is Err ==> r is Err && r->Err_0 == first->Err_0
            &&& first is Ok && second is Err ==> r is Err && r->Err_0 == second->Err_0
            &&& first is Ok && second is Ok && third is Err ==> r is Err && r->Err_0 == third->Err_0
        },
        codec::take_number(s, 4) == Ok::<(nat, Seq<u8>), ErrorForm>((4nat, s.skip(4))) ==> {
            let r = decoded_prefix(s);
            let first = codec::take_number(s.skip(4), 8);
            let second = codec::take_bytes(first->Ok_0.1);
            &&& first is Err ==> r is Err && r->Err_0 == first->Err_0
            &&& first is Ok && second is Err ==> r is Err && r->Err_0 == second->Err_0
        },
        codec::take_number(s, 4) == Ok::<(nat, Seq<u8>), ErrorForm>((5nat, s.skip(4))) ==> {
            let r = decoded_prefix(s);
            let first = codec::take_number(s.skip(4), 8);
            &&& first is Err ==> r is Err && r->Err_0 == first->Err_0
        },
{
}

/// What was read is what is said of the bytes: the message and the bytes behind it, or the reason why
/// there is none.
pub proof fn law_reading_says_what_is_there(
    r: Result<PacketMessage, DecodeError>,
    said: Result<(PacketForm, Seq<u8>), ErrorForm>,
    rest: Seq<u8>,
)
    requires
        read_as(r, said, rest),
    ensures
        r is Ok <==> said is Ok,
        r is Ok ==> said->Ok_0 == (r->Ok_0@, rest),
        r is Err ==> said->Err_0 == r->Err_0@,
{
}

} // verus!
