//! Splitting of payloads into fragments that fit a datagram, and their reassembly.

use std::collections::HashMap;

use vstd::prelude::*;

use crate::net::codec;
use crate::net::codec::{DecodeError, DecodeKind, ErrorForm, Reader};

verus! {

broadcast use vstd::std_specs::hash::group_hash_axioms;

/// A cautious estimate of the bytes that the transport adds to a packet.
pub const HEADER_SIZE_ESTIMATE: usize = 16;

/// Nanoseconds after which an incomplete message is forgotten.
pub const FRAGMENT_TTL_NANOS: u64 = 30_000_000_000;

/// How often a packet is offered again to a socket that would block.
pub const MAX_RETRIES: usize = 50;

/// Milliseconds between two such offers.
pub const BACKOFF_MS: u64 = 5;

// ---------------------------------------------------------------- fragments

/// A part of a message.
#[derive(Debug)]
pub struct PacketFragment {
    pub message_id: u64,
    pub fragment_index: u16,
    pub total_fragments: u16,
    pub data: Vec<u8>,
}

/// What a fragment says, as a value of mathematics.
pub struct FragmentForm {
    pub message_id: u64,
    pub fragment_index: u16,
    pub total_fragments: u16,
    pub data: Seq<u8>,
}

impl View for PacketFragment {
    type V = FragmentForm;

    open spec fn view(&self) -> FragmentForm {
        FragmentForm {
            message_id: self.message_id,
            fragment_index: self.fragment_index,
            total_fragments: self.total_fragments,
            data: self.data@,
        }
    }
}

/// The bytes of a fragment.
pub open spec fn fragment_encoded(f: FragmentForm) -> Seq<u8> {
    codec::le(f.message_id as nat, 8) + (codec::le(f.fragment_index as nat, 2) + (codec::le(
        f.total_fragments as nat,
        2,
    ) + codec::bytes_form(f.data)))
}

/// The fragment that bytes hold, with nothing behind it.
pub open spec fn fragment_decoded(s: Seq<u8>) -> Result<FragmentForm, ErrorForm> {
    match codec::take_number(s, 8) {
        Ok((id, s1)) => match codec::take_number(s1, 2) {
            Ok((index, s2)) => match codec::take_number(s2, 2) {
                Ok((total, s3)) => match codec::take_bytes(s3) {
                    Ok((data, rest)) => if rest.len() == 0 {
                        Ok(
                            FragmentForm {
                                message_id: id as u64,
                                fragment_index: index as u16,
                                total_fragments: total as u16,
                                data,
                            },
                        )
                    } else {
                        Err(codec::too_long())
                    },
                    Err(e) => Err(e),
                },
                Err(e) => Err(e),
            },
            Err(e) => Err(e),
        },
        Err(e) => Err(e),
    }
}

impl PacketFragment {
    /// Encodes the fragment. The result has to fit in one allocation.
    pub fn encode(&self) -> (r: Vec<u8>)
        requires
            fragment_encoded(self@).len() <= isize::MAX,
        ensures
            r@ == fragment_encoded(self@),
    {
        proof {
            codec::lemma_le_len(self.message_id as nat, 8);
            codec::lemma_le_len(self.fragment_index as nat, 2);
            codec::lemma_le_len(self.total_fragments as nat, 2);
        }
        let mut out: Vec<u8> = Vec::new();
        codec::put_u64(&mut out, self.message_id);
        codec::put_u16(&mut out, self.fragment_index);
        codec::put_u16(&mut out, self.total_fragments);
        codec::put_bytes(&mut out, self.data.as_slice());
        assert(out@ =~= fragment_encoded(self@));
        out
    }

    /// Decodes a fragment that fills `bytes`.
    pub fn decode(bytes: &[u8]) -> (r: Result<PacketFragment, DecodeError>)
        ensures
            match r {
                Ok(f) => fragment_decoded(bytes@) == Ok::<FragmentForm, ErrorForm>(f@),
                Err(e) => fragment_decoded(bytes@) == Err::<FragmentForm, ErrorForm>(e@),
            },
    {
        let mut input = Reader::new(bytes);
        let message_id: u64 = match input.get_u64() {
            Ok(v) => v,
            Err(e) => {
                return Err(e);
            },
        };
        let fragment_index: u16 = match input.get_u16() {
            Ok(v) => v,
            Err(e) => {
                return Err(e);
            },
        };
        let total_fragments: u16 = match input.get_u16() {
            Ok(v) => v,
            Err(e) => {
                return Err(e);
            },
        };
        let data = match input.get_bytes() {
            Ok(v) => v,
            Err(e) => {
                return Err(e);
            },
        };
        if input.is_finished() {
            Ok(PacketFragment { message_id, fragment_index, total_fragments, data })
        } else {
            Err(codec::trailing_bytes())
        }
    }
}

/// An encoded fragment is read as that fragment.
pub proof fn law_fragment_is_read(f: FragmentForm)
    requires
        f.data.len() <= u64::MAX,
    ensures
        fragment_decoded(fragment_encoded(f)) == Ok::<FragmentForm, ErrorForm>(f),
{
    codec::lemma_pow256();
    let none = Seq::<u8>::empty();
    let s3 = codec::bytes_form(f.data);
    let s2 = codec::le(f.total_fragments as nat, 2) + s3;
    let s1 = codec::le(f.fragment_index as nat, 2) + s2;
    codec::lemma_number_read(f.message_id as nat, 8, s1);
    codec::lemma_number_read(f.fragment_index as nat, 2, s2);
    codec::lemma_number_read(f.total_fragments as nat, 2, s3);
    codec::lemma_bytes_read(f.data, none);
    assert(s3 + none =~= s3);
}

// ---------------------------------------------------------------- splitting

/// How many parts of at most `max` bytes a payload has.
pub open spec fn part_count(len: nat, max: nat) -> nat {
    if len <= max {
        1
    } else {
        (len - 1) as nat / max + 1
    }
}

/// The bytes of part `i` of a payload.
pub open spec fn part(payload: Seq<u8>, max: nat, i: int) -> Seq<u8> {
    if payload.len() <= max {
        payload
    } else {
        payload.subrange(
            i * max,
            if (i + 1) * max <= payload.len() {
                (i + 1) * max
            } else {
                payload.len() as int
            },
        )
    }
}

/// The fragment for part `i`. Index and total are kept to sixteen bits.
pub open spec fn fragment(id: u64, payload: Seq<u8>, max: nat, i: int) -> FragmentForm {
    FragmentForm {
        message_id: id,
        fragment_index: (i % 0x1_0000) as u16,
        total_fragments: (part_count(payload.len(), max) % 0x1_0000) as u16,
        data: part(payload, max, i),
    }
}

/// The fragments of a payload.
pub open spec fn fragments(id: u64, payload: Seq<u8>, max: nat) -> Seq<FragmentForm> {
    Seq::new(part_count(payload.len(), max), |i: int| fragment(id, payload, max, i))
}

/// What a list of fragments says.
pub open spec fn forms(v: Seq<PacketFragment>) -> Seq<FragmentForm> {
    v.map_values(|f: PacketFragment| f@)
}

proof fn lemma_part_bounds(len: nat, max: nat, i: int)
    requires
        0 < max < len,
        0 <= i < part_count(len, max),
    ensures
        0 <= i * max < len,
        i * max <= (i + 1) * max,
        i + 1 < part_count(len, max) ==> (i + 1) * max < len,
        i + 1 == part_count(len, max) ==> (i + 1) * max >= len,
{
    let q = (len - 1) as nat / max;
    let r = (len - 1) as nat % max;
    vstd::arithmetic::div_mod::lemma_fundamental_div_mod(len - 1, max as int);
    assert(max * q + r == len - 1);
    vstd::arithmetic::mul::lemma_mul_inequality(i, q as int, max as int);
    vstd::arithmetic::mul::lemma_mul_is_commutative(q as int, max as int);
    vstd::arithmetic::mul::lemma_mul_is_distributive_add_other_way(max as int, i, 1);
    vstd::arithmetic::mul::lemma_mul_is_distributive_add_other_way(max as int, q as int, 1);
    vstd::arithmetic::mul::lemma_mul_nonnegative(i, max as int);
    if i + 1 < part_count(len, max) {
        vstd::arithmetic::mul::lemma_mul_inequality(i + 1, q as int, max as int);
    }
}

/// Splits a payload into fragments of at most `max_payload` bytes.
pub fn fragment_payload(message_id: u64, payload: Vec<u8>, max_payload: usize) -> (r: Vec<
    PacketFragment,
>)
    requires
        max_payload > 0 || payload@.len() == 0,
    ensures
        forms(r@) == fragments(message_id, payload@, max_payload as nat),
{
    let size: usize = payload.len();
    let mut r: Vec<PacketFragment> = Vec::new();
    if size <= max_payload {
        r.push(
            PacketFragment { message_id, fragment_index: 0, total_fragments: 1, data: payload },
        );
        assert(forms(r@) =~= fragments(message_id, payload@, max_payload as nat));
        return r;
    }
    let count: usize = (size - 1) / max_payload + 1;
    let total: u16 = (count % 0x1_0000) as u16;
    let ghost max = max_payload as nat;
    let ghost whole = payload@;
    let mut i: usize = 0;
    let mut start: usize = 0;
    while i < count
        invariant
            i <= count,
            0 < max_payload < size,
            max == max_payload,
            size == whole.len(),
            payload@ == whole,
            count == part_count(size as nat, max),
            total == count % 0x1_0000,
            i < count ==> start == i * max,
            forms(r@) == fragments(message_id, whole, max).take(i as int),
        decreases count - i,
    {
        proof {
            lemma_part_bounds(size as nat, max, i as int);
            vstd::arithmetic::mul::lemma_mul_is_distributive_add_other_way(max as int, i as int, 1);
        }
        let end: usize = if size - start <= max_payload {
            size
        } else {
            start + max_payload
        };
        let data = vstd::slice::slice_to_vec(
            vstd::slice::slice_subrange(payload.as_slice(), start, end),
        );
        let ghost before = r@;
        r.push(
            PacketFragment {
                message_id,
                fragment_index: (i % 0x1_0000) as u16,
                total_fragments: total,
                data,
            },
        );
        assert(r@.last()@ == fragment(message_id, whole, max, i as int)) by {
            assert(data@ =~= part(whole, max, i as int));
        }
        assert(forms(r@) =~= forms(before).push(r@.last()@));
        assert(fragments(message_id, whole, max).take(i + 1) =~= fragments(
            message_id,
            whole,
            max,
        ).take(i as int).push(fragment(message_id, whole, max, i as int)));
        start = end;
        i += 1;
    }
    assert(fragments(message_id, whole, max).take(count as int) =~= fragments(
        message_id,
        whole,
        max,
    ));
    r
}

// ---------------------------------------------------------------- joining

/// The parts of a message that have arrived.
#[derive(Debug)]
pub struct FragmentBuffer {
    pub received: Vec<Option<Vec<u8>>>,
    pub last_update: u64,
}

/// What a buffer holds, as a value of mathematics.
pub struct BufferForm {
    pub slots: Seq<Option<Seq<u8>>>,
    pub last_update: u64,
}

/// The bytes in an optional part.
pub open spec fn bytes_in(v: Option<Vec<u8>>) -> Option<Seq<u8>> {
    match v {
        Some(b) => Some(b@),
        None => None,
    }
}

impl View for FragmentBuffer {
    type V = BufferForm;

    open spec fn view(&self) -> BufferForm {
        BufferForm {
            slots: self.received@.map_values(|v: Option<Vec<u8>>| bytes_in(v)),
            last_update: self.last_update,
        }
    }
}

/// A buffer without parts.
pub open spec fn empty_buffer(total: nat, now: u64) -> BufferForm {
    BufferForm { slots: Seq::new(total, |i: int| None), last_update: now }
}

/// A buffer after a part has arrived; an index beyond its parts only counts as an update.
pub open spec fn with_part(b: BufferForm, index: int, data: Seq<u8>, now: u64) -> BufferForm {
    BufferForm {
        slots: if 0 <= index < b.slots.len() {
            b.slots.update(index, Some(data))
        } else {
            b.slots
        },
        last_update: now,
    }
}

/// Whether no part is missing.
pub open spec fn complete(slots: Seq<Option<Seq<u8>>>) -> bool {
    forall|i: int| 0 <= i < slots.len() ==> (#[trigger] slots[i]) is Some
}

/// The parts that are there, one behind the other.
pub open spec fn joined(slots: Seq<Option<Seq<u8>>>) -> Seq<u8>
    decreases slots.len(),
{
    if slots.len() == 0 {
        Seq::empty()
    } else {
        joined(slots.drop_last()) + match slots.last() {
            Some(b) => b,
            None => Seq::empty(),
        }
    }
}

impl FragmentBuffer {
    /// A buffer for a message of `total` parts.
    pub fn new(total: u16, now: u64) -> (r: FragmentBuffer)
        ensures
            r@ == empty_buffer(total as nat, now),
    {
        let mut received: Vec<Option<Vec<u8>>> = Vec::new();
        let mut i: u16 = 0;
        while i < total
            invariant
                i <= total,
                received@.len() == i,
                forall|k: int| 0 <= k < i ==> (#[trigger] received@[k]) is None,
            decreases total - i,
        {
            received.push(None);
            i += 1;
        }
        let r = FragmentBuffer { received, last_update: now };
        assert(r@.slots =~= empty_buffer(total as nat, now).slots);
        r
    }

    /// Keeps a part.
    pub fn insert(&mut self, idx: u16, data: Vec<u8>, now: u64)
        ensures
            final(self)@ == with_part(old(self)@, idx as int, data@, now),
    {
        if (idx as usize) < self.received.len() {
            self.received.set(idx as usize, Some(data));
        }
        self.last_update = now;
        assert(self@.slots =~= with_part(old(self)@, idx as int, data@, now).slots);
    }

    /// Whether no part is missing.
    pub fn is_complete(&self) -> (r: bool)
        ensures
            r == complete(self@.slots),
    {
        let mut i: usize = 0;
        while i < self.received.len()
            invariant
                i <= self.received@.len(),
                forall|k: int| 0 <= k < i ==> (#[trigger] self@.slots[k]) is Some,
            decreases self.received@.len() - i,
        {
            if self.received[i].is_none() {
                assert(self@.slots[i as int] is None);
                return false;
            }
            i += 1;
        }
        true
    }

    /// The parts, one behind the other.
    pub fn assemble(self) -> (r: Vec<u8>)
        ensures
            r@ == joined(self@.slots),
    {
        let mut payload: Vec<u8> = Vec::new();
        let mut i: usize = 0;
        let ghost slots = self@.slots;
        assert(slots.take(0) =~= Seq::<Option<Seq<u8>>>::empty());
        while i < self.received.len()
            invariant
                i <= self.received@.len(),
                slots == self@.slots,
                payload@ == joined(slots.take(i as int)),
            decreases self.received@.len() - i,
        {
            assert(slots.take(i + 1).drop_last() =~= slots.take(i as int));
            assert(slots.take(i + 1).last() == bytes_in(self.received@[i as int]));
            if let Some(part) = &self.received[i] {
                payload.extend_from_slice(part.as_slice());
            }
            i += 1;
        }
        assert(slots.take(i as int) =~= slots);
        payload
    }
}

// ---------------------------------------------------------------- manager

/// A fragment ready to be sent, and what it costs the rate limit.
#[derive(Debug)]
pub struct OutgoingPacket {
    pub bytes: Vec<u8>,
    pub cost: u64,
}

/// Numbers and splits outgoing payloads, and joins the fragments that come in.
#[derive(Debug)]
pub struct PacketManager {
    pub next_message_id: u64,
    pub max_payload: usize,
    pub fragments: HashMap<u64, FragmentBuffer>,
    pub fragment_ttl: u64,
}

/// The buffers by message, as values of mathematics.
pub open spec fn buffers(m: Map<u64, FragmentBuffer>) -> Map<u64, BufferForm> {
    m.map_values(|b: FragmentBuffer| b@)
}

/// Whether a buffer was updated recently enough.
pub open spec fn fresh(b: BufferForm, now: u64, ttl: u64) -> bool {
    now - b.last_update < ttl && ttl > 0
}

/// The buffers that were updated recently enough.
pub open spec fn fresh_only(m: Map<u64, BufferForm>, now: u64, ttl: u64) -> Map<u64, BufferForm> {
    m.restrict(m.dom().filter(|id: u64| fresh(m[id], now, ttl)))
}

/// The buffer of a message after a fragment has arrived.
pub open spec fn updated(m: Map<u64, BufferForm>, f: FragmentForm, now: u64) -> BufferForm {
    let before = if m.contains_key(f.message_id) {
        m[f.message_id]
    } else {
        empty_buffer(f.total_fragments as nat, now)
    };
    with_part(before, f.fragment_index as int, f.data, now)
}

/// The buffers after a fragment has arrived.
pub open spec fn after(m: Map<u64, BufferForm>, f: FragmentForm, now: u64, ttl: u64) -> Map<
    u64,
    BufferForm,
> {
    if f.total_fragments == 1 {
        m
    } else if complete(updated(m, f, now).slots) {
        fresh_only(m.remove(f.message_id), now, ttl)
    } else {
        fresh_only(m.insert(f.message_id, updated(m, f, now)), now, ttl)
    }
}

/// The message that a fragment completes.
pub open spec fn completed(m: Map<u64, BufferForm>, f: FragmentForm, now: u64) -> Option<Seq<u8>> {
    if f.total_fragments == 1 {
        Some(f.data)
    } else if complete(updated(m, f, now).slots) {
        Some(joined(updated(m, f, now).slots))
    } else {
        None
    }
}

/// The number that follows a message number; zero is left out.
pub open spec fn following_id(id: u64) -> u64 {
    if id == u64::MAX {
        1
    } else {
        (id + 1) as u64
    }
}

/// Whether packets carry these fragments, each at the cost of its bytes and a header.
pub open spec fn carries(packets: Seq<OutgoingPacket>, parts: Seq<FragmentForm>) -> bool {
    &&& packets.len() == parts.len()
    &&& forall|i: int|
        0 <= i < packets.len() ==> (#[trigger] packets[i]).bytes@ == fragment_encoded(parts[i])
            && packets[i].cost == fragment_encoded(parts[i]).len() + HEADER_SIZE_ESTIMATE
}

impl PacketManager {
    /// A manager without pending messages.
    pub fn new(max_payload: usize) -> (r: PacketManager)
        ensures
            r.next_message_id == 1,
            r.max_payload == max_payload,
            r.fragments@ == Map::<u64, FragmentBuffer>::empty(),
            r.fragment_ttl == FRAGMENT_TTL_NANOS,
    {
        PacketManager {
            next_message_id: 1,
            max_payload,
            fragments: HashMap::new(),
            fragment_ttl: FRAGMENT_TTL_NANOS,
        }
    }

    /// Numbers a payload and splits it into packets, in the order in which to send them.
    pub fn prepare(&mut self, payload: Vec<u8>) -> (r: Vec<OutgoingPacket>)
        requires
            old(self).max_payload > 0 || payload@.len() == 0,
            payload@.len() + 64 <= isize::MAX,
        ensures
            final(self).next_message_id == following_id(old(self).next_message_id),
            final(self).max_payload == old(self).max_payload,
            final(self).fragments == old(self).fragments,
            final(self).fragment_ttl == old(self).fragment_ttl,
            carries(
                r@,
                fragments(old(self).next_message_id, payload@, old(self).max_payload as nat),
            ),
    {
        let message_id: u64 = self.next_message_id;
        self.next_message_id = if message_id == u64::MAX {
            1
        } else {
            message_id + 1
        };
        let ghost whole = payload@;
        let parts = fragment_payload(message_id, payload, self.max_payload);
        let ghost said = fragments(message_id, whole, self.max_payload as nat);
        let mut r: Vec<OutgoingPacket> = Vec::new();
        let mut i: usize = 0;
        while i < parts.len()
            invariant
                i <= parts@.len(),
                forms(parts@) == said,
                said == fragments(message_id, whole, self.max_payload as nat),
                self.max_payload > 0 || whole.len() == 0,
                whole.len() + 64 <= isize::MAX,
                carries(r@, said.take(i as int)),
            decreases parts@.len() - i,
        {
            proof {
                assert(forms(parts@).len() == parts@.len());
                assert(forms(parts@)[i as int] == parts@[i as int]@);
                lemma_fragment_size(message_id, whole, self.max_payload as nat, i as int);
            }
            let bytes = parts[i].encode();
            let cost: u64 = (bytes.len() + HEADER_SIZE_ESTIMATE) as u64;
            r.push(OutgoingPacket { bytes, cost });
            i += 1;
        }
        assert(said.take(i as int) =~= said);
        r
    }

    /// Takes a fragment that has come in: the message that it completes, if it does. Other
    /// messages that have waited too long are forgotten.
    pub fn process_incoming(&mut self, payload: &[u8], now: u64) -> (r: Result<
        Option<Vec<u8>>,
        DecodeError,
    >)
        ensures
            final(self).next_message_id == old(self).next_message_id,
            final(self).max_payload == old(self).max_payload,
            final(self).fragment_ttl == old(self).fragment_ttl,
            match fragment_decoded(payload@) {
                Ok(f) => {
                    &&& r matches Ok(message) && bytes_in(message) == completed(
                        buffers(old(self).fragments@),
                        f,
                        now,
                    )
                    &&& buffers(final(self).fragments@) == after(
                        buffers(old(self).fragments@),
                        f,
                        now,
                        old(self).fragment_ttl,
                    )
                },
                Err(error) => {
                    &&& r matches Err(e) && e@ == error
                    &&& final(self).fragments == old(self).fragments
                },
            },
    {
        let fragment = match PacketFragment::decode(payload) {
            Ok(f) => f,
            Err(e) => {
                return Err(e);
            },
        };
        let ghost f = fragment@;
        let ghost start = buffers(self.fragments@);
        if fragment.total_fragments == 1 {
            return Ok(Some(fragment.data));
        }
        let id: u64 = fragment.message_id;
        let mut buffer = match self.fragments.remove(&id) {
            Some(buffer) => buffer,
            None => FragmentBuffer::new(fragment.total_fragments, now),
        };
        assert(buffers(self.fragments@) =~= start.remove(id));
        buffer.insert(fragment.fragment_index, fragment.data, now);
        assert(buffer@ == updated(start, f, now));
        if buffer.is_complete() {
            let assembled = buffer.assemble();
            self.cleanup_old_entries(now);
            return Ok(Some(assembled));
        }
        self.fragments.insert(id, buffer);
        assert(buffers(self.fragments@) =~= start.insert(id, updated(start, f, now)));
        self.cleanup_old_entries(now);
        Ok(None)
    }

    /// Forgets the messages that have waited too long.
    pub fn cleanup_old_entries(&mut self, now: u64)
        ensures
            final(self).next_message_id == old(self).next_message_id,
            final(self).max_payload == old(self).max_payload,
            final(self).fragment_ttl == old(self).fragment_ttl,
            buffers(final(self).fragments@) == fresh_only(
                buffers(old(self).fragments@),
                now,
                old(self).fragment_ttl,
            ),
    {
        let ttl: u64 = self.fragment_ttl;
        let ghost start = self.fragments@;
        let mut stale: Vec<u64> = Vec::new();
        for key in it: self.fragments.keys()
            invariant
                self.fragments@ == start,
                ttl == self.fragment_ttl,
                it.seq().unref().to_set() == start.dom(),
                forall|k: int|
                    0 <= k < stale@.len() ==> start.contains_key(#[trigger] stale@[k]) && !fresh(
                        start[stale@[k]]@,
                        now,
                        ttl,
                    ),
                forall|k: int|
                    0 <= k < it.index() && !fresh(start[*(#[trigger] it.seq()[k])]@, now, ttl)
                        ==> stale@.contains(*it.seq()[k]),
        {
            let ghost before = stale@;
            assert(it.seq().unref()[it.index() as int] == *key);
            assert(it.seq().unref().to_set().contains(*key));
            if let Some(buffer) = self.fragments.get(key) {
                let age: u64 = if now >= buffer.last_update {
                    now - buffer.last_update
                } else {
                    0
                };
                if age >= ttl {
                    stale.push(*key);
                    assert(stale@[before.len() as int] == *key);
                }
            }
            assert forall|x: u64| before.contains(x) implies stale@.contains(x) by {
                let k = choose|k: int| 0 <= k < before.len() && before[k] == x;
                assert(stale@[k] == x);
            }
        }
        assert forall|x: u64| start.contains_key(x) && !fresh(start[x]@, now, ttl) implies stale@.contains(x) by {
        }
        let mut i: usize = 0;
        while i < stale.len()
            invariant
                i <= stale@.len(),
                ttl == self.fragment_ttl,
                self.fragment_ttl == old(self).fragment_ttl,
                self.next_message_id == old(self).next_message_id,
                self.max_payload == old(self).max_payload,
                forall|x: u64| #[trigger]
                    self.fragments@.contains_key(x) ==> start.contains_key(x)
                        && self.fragments@[x] == start[x],
                forall|x: u64| #[trigger]
                    start.contains_key(x) ==> (self.fragments@.contains_key(x) || stale@.take(
                        i as int,
                    ).contains(x)),
                forall|k: int|
                    0 <= k < i ==> !self.fragments@.contains_key(#[trigger] stale@[k]),
            decreases stale@.len() - i,
        {
            let ghost before = self.fragments@;
            self.fragments.remove(&stale[i]);
            assert forall|x: u64| #[trigger] start.contains_key(x) implies (
            self.fragments@.contains_key(x) || stale@.take(i + 1).contains(x)) by {
                if before.contains_key(x) {
                    assert(stale@.take(i + 1)[i as int] == stale@[i as int]);
                } else {
                    let k = choose|k: int| 0 <= k < i && stale@.take(i as int)[k] == x;
                    assert(stale@.take(i + 1)[k] == x);
                }
            }
            i += 1;
        }
        assert(buffers(self.fragments@) =~= fresh_only(buffers(start), now, ttl));
    }
}

/// Whether a packet that the socket did not take is offered again.
pub fn should_retry(would_block: bool, retries: usize) -> (r: bool)
    ensures
        r == (would_block && retries < MAX_RETRIES),
{
    would_block && retries < MAX_RETRIES
}

proof fn lemma_fragment_size(id: u64, payload: Seq<u8>, max: nat, i: int)
    requires
        max > 0 || payload.len() == 0,
        0 <= i < part_count(payload.len(), max),
    ensures
        fragment_encoded(fragment(id, payload, max, i)).len() <= payload.len() + 20,
{
    let f = fragment(id, payload, max, i);
    codec::lemma_le_len(f.message_id as nat, 8);
    codec::lemma_le_len(f.fragment_index as nat, 2);
    codec::lemma_le_len(f.total_fragments as nat, 2);
    codec::lemma_le_len(f.data.len(), 8);
    if payload.len() > max {
        lemma_part_bounds(payload.len(), max, i);
    }
}

// ---------------------------------------------------------------- rejoining

/// The buffers after fragments have arrived one by one at the given times.
pub open spec fn after_all(
    m: Map<u64, BufferForm>,
    arrived: Seq<FragmentForm>,
    times: Seq<u64>,
    ttl: u64,
) -> Map<u64, BufferForm>
    decreases arrived.len(),
{
    if arrived.len() == 0 {
        m
    } else {
        after(
            after_all(m, arrived.drop_last(), times.drop_last(), ttl),
            arrived.last(),
            times.last(),
            ttl,
        )
    }
}

/// The fragments of a payload in the order in which they arrive.
pub open spec fn arriving(id: u64, payload: Seq<u8>, max: nat, order: Seq<int>) -> Seq<
    FragmentForm,
> {
    order.map_values(|i: int| fragment(id, payload, max, i))
}

/// Each of the numbers below `n`, once.
pub open spec fn each_once(order: Seq<int>, n: nat) -> bool {
    &&& order.len() == n
    &&& order.no_duplicates()
    &&& forall|k: int| 0 <= k < n ==> 0 <= #[trigger] order[k] < n
    &&& forall|i: int| 0 <= i < n ==> #[trigger] order.contains(i)
}

/// Whether a buffer holds exactly the parts with these numbers.
pub open spec fn holds(b: BufferForm, payload: Seq<u8>, max: nat, seen: Seq<int>) -> bool {
    &&& b.slots.len() == part_count(payload.len(), max)
    &&& forall|i: int|
        0 <= i < b.slots.len() ==> #[trigger] b.slots[i] == if seen.contains(i) {
            Some(part(payload, max, i))
        } else {
            None
        }
}

proof fn lemma_one_more(
    m: Map<u64, BufferForm>,
    id: u64,
    payload: Seq<u8>,
    max: nat,
    seen: Seq<int>,
    i: int,
    now: u64,
)
    requires
        0 < max < payload.len(),
        part_count(payload.len(), max) < 0x1_0000,
        0 <= i < part_count(payload.len(), max),
        seen.len() == 0 ==> !m.contains_key(id),
        seen.len() > 0 ==> m.contains_key(id) && holds(m[id], payload, max, seen),
    ensures
        holds(
            updated(m, fragment(id, payload, max, i), now),
            payload,
            max,
            seen.push(i),
        ),
{
    let b = updated(m, fragment(id, payload, max, i), now);
    let all = seen.push(i);
    lemma_part_bounds(payload.len(), max, 0);
    assert(all[seen.len() as int] == i);
    assert forall|j: int| 0 <= j < b.slots.len() implies #[trigger] b.slots[j] == (
    if all.contains(j) {
        Some(part(payload, max, j))
    } else {
        None
    }) by {
        if j != i {
            if seen.contains(j) {
                let k = choose|k: int| 0 <= k < seen.len() && seen[k] == j;
                assert(all[k] == j);
            } else {
                assert(!all.contains(j));
            }
        }
    }
}

proof fn lemma_in_between(
    m: Map<u64, BufferForm>,
    id: u64,
    payload: Seq<u8>,
    max: nat,
    order: Seq<int>,
    times: Seq<u64>,
    ttl: u64,
    k: int,
)
    requires
        ttl > 0,
        0 < max < payload.len(),
        part_count(payload.len(), max) < 0x1_0000,
        !m.contains_key(id),
        each_once(order, part_count(payload.len(), max)),
        times.len() == order.len(),
        0 <= k < order.len(),
    ensures
        ({
            let before = after_all(
                m,
                arriving(id, payload, max, order).take(k),
                times.take(k),
                ttl,
            );
            &&& k == 0 ==> !before.contains_key(id)
            &&& k > 0 ==> before.contains_key(id) && holds(
                before[id],
                payload,
                max,
                order.take(k),
            )
        }),
    decreases k,
{
    let parts = arriving(id, payload, max, order);
    if k > 0 {
        lemma_in_between(m, id, payload, max, order, times, ttl, k - 1);
        let before = after_all(m, parts.take(k - 1), times.take(k - 1), ttl);
        let f = fragment(id, payload, max, order[k - 1]);
        let now = times[k - 1];
        assert(parts.take(k).drop_last() =~= parts.take(k - 1));
        assert(times.take(k).drop_last() =~= times.take(k - 1));
        assert(order.take(k) =~= order.take(k - 1).push(order[k - 1]));
        lemma_one_more(before, id, payload, max, order.take(k - 1), order[k - 1], now);
        let b = updated(before, f, now);
        assert(!order.take(k).contains(order[k])) by {
            if order.take(k).contains(order[k]) {
                let j = choose|j: int| 0 <= j < k && order.take(k)[j] == order[k];
                assert(order[j] == order[k]);
            }
        }
        assert(b.slots[order[k]] is None);
        assert(!complete(b.slots));
        lemma_part_bounds(payload.len(), max, 0);
        assert(part_count(payload.len(), max) > 1) by {
            if part_count(payload.len(), max) == 1 {
                assert(order[k] == 0 && order[k - 1] == 0);
            }
        }
        assert(fresh(b, now, ttl));
    }
}

proof fn lemma_parts_join(slots: Seq<Option<Seq<u8>>>, payload: Seq<u8>, max: nat, j: int)
    requires
        0 < max < payload.len(),
        slots.len() == part_count(payload.len(), max),
        forall|i: int|
            0 <= i < slots.len() ==> #[trigger] slots[i] == Some(part(payload, max, i)),
        0 <= j <= slots.len(),
    ensures
        joined(slots.take(j)) == payload.take(
            if j * max <= payload.len() {
                j * max
            } else {
                payload.len() as int
            },
        ),
    decreases j,
{
    if j == 0 {
        assert(slots.take(0) =~= Seq::<Option<Seq<u8>>>::empty());
        assert(0 * max == 0);
        assert(payload.take(0) =~= Seq::<u8>::empty());
    } else {
        lemma_parts_join(slots, payload, max, j - 1);
        lemma_part_bounds(payload.len(), max, j - 1);
        assert(slots.take(j).drop_last() =~= slots.take(j - 1));
        assert(slots.take(j).last() == Some(part(payload, max, j - 1)));
        let from = (j - 1) * max;
        let to = if j * max <= payload.len() {
            j * max
        } else {
            payload.len() as int
        };
        assert(payload.take(from) + payload.subrange(from, to) =~= payload.take(to));
    }
}

/// The fragments of a payload give it back, in whatever order and at whatever times they
/// arrive: nothing before the last of them, the payload with the last.
pub proof fn law_fragments_rejoin(
    m: Map<u64, BufferForm>,
    id: u64,
    payload: Seq<u8>,
    max: nat,
    order: Seq<int>,
    times: Seq<u64>,
    ttl: u64,
    k: int,
)
    requires
        ttl > 0,
        max > 0,
        part_count(payload.len(), max) < 0x1_0000,
        !m.contains_key(id),
        each_once(order, part_count(payload.len(), max)),
        times.len() == order.len(),
        0 <= k < order.len(),
    ensures
        completed(
            after_all(m, arriving(id, payload, max, order).take(k), times.take(k), ttl),
            arriving(id, payload, max, order)[k],
            times[k],
        ) == (if k == order.len() - 1 {
            Some(payload)
        } else {
            None
        }),
{
    let parts = arriving(id, payload, max, order);
    if payload.len() > max {
        let before = after_all(m, parts.take(k), times.take(k), ttl);
        lemma_in_between(m, id, payload, max, order, times, ttl, k);
        lemma_one_more(before, id, payload, max, order.take(k), order[k], times[k]);
        lemma_part_bounds(payload.len(), max, 0);
        let slots = updated(before, parts[k], times[k]).slots;
        let seen = order.take(k).push(order[k]);
        assert(seen =~= order.take(k + 1));
        assert(part_count(payload.len(), max) > 1) by {
            if part_count(payload.len(), max) == 1 {
                assert(1 * max >= payload.len());
            }
        }
        if k == order.len() - 1 {
            assert(seen =~= order);
            assert forall|i: int| 0 <= i < slots.len() implies #[trigger] slots[i] == Some(
                part(payload, max, i),
            ) by {
                assert(order.contains(i));
            }
            lemma_parts_join(slots, payload, max, slots.len() as int);
            lemma_part_bounds(payload.len(), max, slots.len() - 1);
            assert(slots.take(slots.len() as int) =~= slots);
            assert(payload.take(payload.len() as int) =~= payload);
        } else {
            assert(!seen.contains(order[k + 1])) by {
                if seen.contains(order[k + 1]) {
                    let j = choose|j: int| 0 <= j <= k && seen[j] == order[k + 1];
                    assert(order[j] == order[k + 1]);
                }
            }
            assert(slots[order[k + 1]] is None);
        }
    }
}

// ---------------------------------------------------------------- laws

/// A fragment is written by its message, its number, their count, and its bytes behind their length.
pub proof fn law_fragments_are_written(
    message_id: u64,
    fragment_index: u16,
    total_fragments: u16,
    data: Seq<u8>,
)
    ensures
        fragment_encoded(FragmentForm { message_id, fragment_index, total_fragments, data })
            == codec::le(message_id as nat, 8) + (codec::le(fragment_index as nat, 2) + (codec::le(
            total_fragments as nat,
            2,
        ) + (codec::le(data.len(), 8) + data))),
{
}

/// A fragment that was read is written as the bytes that it was read from.
pub proof fn law_read_fragment_is_what_was_written(s: Seq<u8>)
    requires
        fragment_decoded(s) is Ok,
    ensures
        s == fragment_encoded(fragment_decoded(s)->Ok_0),
{
    codec::lemma_pow256();
    codec::law_read_numbers_are_written_back(s, 8);
    let (id, s1) = codec::take_number(s, 8)->Ok_0;
    codec::law_read_numbers_are_written_back(s1, 2);
    let (index, s2) = codec::take_number(s1, 2)->Ok_0;
    codec::law_read_numbers_are_written_back(s2, 2);
    let (total, s3) = codec::take_number(s2, 2)->Ok_0;
    codec::lemma_bytes_written_back(s3);
    let (data, rest) = codec::take_bytes(s3)->Ok_0;
    assert(s3 =~= codec::bytes_form(data));
}

/// A fragment is refused where its bytes end too early, or others stand behind it.
pub proof fn law_fragments_are_refused(s: Seq<u8>)
    ensures
        s.len() < 8 ==> fragment_decoded(s) == Err::<FragmentForm, ErrorForm>(
            ErrorForm { kind: DecodeKind::UnexpectedEnd, words: codec::u64_words(s) },
        ),
        8 <= s.len() && s.len() < 10 ==> fragment_decoded(s) == Err::<FragmentForm, ErrorForm>(
            ErrorForm { kind: DecodeKind::UnexpectedEnd, words: codec::u16_words(s.skip(8)) },
        ),
        10 <= s.len() && s.len() < 12 ==> fragment_decoded(s) == Err::<FragmentForm, ErrorForm>(
            ErrorForm { kind: DecodeKind::UnexpectedEnd, words: codec::u16_words(s.skip(10)) },
        ),
        12 <= s.len() && codec::take_bytes(s.skip(12)) is Err ==> fragment_decoded(s) == Err::<
            FragmentForm,
            ErrorForm,
        >(codec::take_bytes(s.skip(12))->Err_0),
        12 <= s.len() && codec::take_bytes(s.skip(12)) is Ok && codec::take_bytes(
            s.skip(12),
        )->Ok_0.1.len() > 0 ==> fragment_decoded(s) == Err::<FragmentForm, ErrorForm>(
            ErrorForm {
                kind: DecodeKind::TrailingBytes,
                words: "Slice had bytes remaining after deserialization"@,
            },
        ),
{
    if s.len() >= 10 {
        assert(s.skip(8).skip(2) =~= s.skip(10));
    }
    if s.len() >= 12 {
        assert(s.skip(8).skip(2).skip(2) =~= s.skip(12));
    }
}

/// A payload that fits is one part; a larger one has as many parts as it needs, and no more.
pub proof fn law_payload_has_the_parts_it_needs(len: nat, max: nat)
    requires
        max > 0,
    ensures
        len <= max ==> part_count(len, max) == 1,
        len > max ==> (part_count(len, max) - 1) * max < len && len <= part_count(len, max) * max,
{
    if len > max {
        let q = (len - 1) as nat / max;
        lemma_part_bounds(len, max, q as int);
    }
}

/// Each part holds the bytes that stand at its place in the payload; every part but the last is as
/// large as a part can be.
pub proof fn law_parts_follow_the_payload(payload: Seq<u8>, max: nat, i: int, k: int)
    requires
        0 < max < payload.len(),
        0 <= i < part_count(payload.len(), max),
    ensures
        i + 1 < part_count(payload.len(), max) ==> part(payload, max, i).len() == max,
        i + 1 == part_count(payload.len(), max) ==> part(payload, max, i).len() == payload.len() - i
            * max,
        0 <= k < part(payload, max, i).len() ==> part(payload, max, i)[k] == payload[i * max + k],
{
    lemma_part_bounds(payload.len(), max, i);
    assert((i + 1) * max == i * max + max) by (nonlinear_arith);
}

/// The fragments of a payload carry the number of its message, each its own place, how many there
/// are, and its part; a payload that fits is carried whole by one.
pub proof fn law_fragments_tell_their_place(id: u64, payload: Seq<u8>, max: nat, i: int)
    requires
        max > 0,
        part_count(payload.len(), max) < 65536,
        0 <= i < part_count(payload.len(), max),
    ensures
        ({
            let all = fragments(id, payload, max);
            &&& all.len() == part_count(payload.len(), max)
            &&& all[i].message_id == id
            &&& all[i].fragment_index == i
            &&& all[i].total_fragments == part_count(payload.len(), max)
            &&& all[i].data == part(payload, max, i)
            &&& payload.len() <= max ==> all == seq![
                FragmentForm {
                    message_id: id,
                    fragment_index: 0,
                    total_fragments: 1,
                    data: payload,
                },
            ]
        }),
{
    if payload.len() <= max {
        assert(fragments(id, payload, max) =~= seq![
            FragmentForm { message_id: id, fragment_index: 0, total_fragments: 1, data: payload },
        ]);
    }
}

/// A packet holds the bytes of its fragment, and counts for sixteen more.
pub proof fn law_packets_count_their_header(
    packets: Seq<OutgoingPacket>,
    parts: Seq<FragmentForm>,
    i: int,
)
    requires
        carries(packets, parts),
    ensures
        packets.len() == parts.len(),
        0 <= i < packets.len() ==> packets[i].bytes@ == fragment_encoded(parts[i]),
        0 <= i < packets.len() ==> packets[i].cost == packets[i].bytes@.len() + 16,
{
}

/// A part is put at its place and at no other; one without a place is dropped. Either way the message
/// was heard of.
pub proof fn law_parts_are_put_at_their_place(
    b: BufferForm,
    index: int,
    data: Seq<u8>,
    now: u64,
    total: nat,
    k: int,
)
    ensures
        with_part(b, index, data, now).last_update == now,
        with_part(b, index, data, now).slots.len() == b.slots.len(),
        0 <= k < b.slots.len() && k == index ==> with_part(b, index, data, now).slots[k] == Some(
            data,
        ),
        0 <= k < b.slots.len() && k != index ==> with_part(b, index, data, now).slots[k]
            == b.slots[k],
        empty_buffer(total, now).slots.len() == total,
        empty_buffer(total, now).last_update == now,
        0 <= k < total ==> empty_buffer(total, now).slots[k] is None,
{
}

/// The parts of a message are joined in their order.
pub proof fn law_parts_are_joined_in_order(slots: Seq<Option<Seq<u8>>>, data: Seq<u8>)
    ensures
        joined(Seq::empty()) == Seq::<u8>::empty(),
        joined(slots.push(Some(data))) == joined(slots) + data,
        joined(slots.push(None)) == joined(slots),
{
    assert(slots.push(Some(data)).drop_last() =~= slots);
    assert(slots.push(None).drop_last() =~= slots);
    assert(joined(slots) + Seq::<u8>::empty() =~= joined(slots));
}

/// A fragment that is alone is its message. Any other belongs to the message begun under its number,
/// or begins one of as many parts as it tells; where that was its last part, the message is whole.
pub proof fn law_last_part_completes_the_message(
    m: Map<u64, BufferForm>,
    f: FragmentForm,
    now: u64,
    begun: Seq<Option<Seq<u8>>>,
    slots: Seq<Option<Seq<u8>>>,
)
    requires
        m.contains_key(f.message_id) ==> begun == m[f.message_id].slots,
        !m.contains_key(f.message_id) ==> begun.len() == f.total_fragments && forall|i: int|
            0 <= i < begun.len() ==> (#[trigger] begun[i]) is None,
        f.fragment_index < begun.len() ==> slots == begun.update(
            f.fragment_index as int,
            Some(f.data),
        ),
        f.fragment_index >= begun.len() ==> slots == begun,
    ensures
        ({
            let whole = forall|i: int| 0 <= i < slots.len() ==> (#[trigger] slots[i]) is Some;
            &&& f.total_fragments == 1 ==> completed(m, f, now) == Some(f.data)
            &&& f.total_fragments != 1 && whole ==> completed(m, f, now) == Some(joined(slots))
            &&& f.total_fragments != 1 && !whole ==> completed(m, f, now) is None
        }),
{
    if !m.contains_key(f.message_id) {
        assert(begun =~= empty_buffer(f.total_fragments as nat, now).slots);
    }
    assert(updated(m, f, now).slots =~= slots);
}

/// A message that is not whole yet waits for its parts; one that is whole does so no more. Other
/// messages wait as before, but for those of which nothing was heard for as long as they are kept. A
/// fragment that is alone changes nothing.
pub proof fn law_messages_wait_for_their_parts(
    m: Map<u64, BufferForm>,
    f: FragmentForm,
    now: u64,
    ttl: u64,
    id: u64,
)
    requires
        ttl > 0,
    ensures
        ({
            let waiting = after(m, f, now, ttl);
            let whole = completed(m, f, now) is Some;
            &&& f.total_fragments == 1 ==> waiting == m
            &&& f.total_fragments != 1 && whole ==> !waiting.contains_key(f.message_id)
            &&& f.total_fragments != 1 && !whole ==> waiting.contains_key(f.message_id)
                && waiting[f.message_id] == updated(m, f, now)
            &&& f.total_fragments != 1 && id != f.message_id ==> (waiting.contains_key(id)
                <==> m.contains_key(id) && now < m[id].last_update + ttl)
            &&& f.total_fragments != 1 && id != f.message_id && waiting.contains_key(id)
                ==> waiting[id] == m[id]
        }),
{
}

/// Messages are numbered one after the other, and after the last number with one again; none has the
/// number zero.
pub proof fn law_messages_are_numbered(id: u64)
    ensures
        id < 18446744073709551615 ==> following_id(id) == id + 1,
        id == 18446744073709551615 ==> following_id(id) == 1,
        following_id(id) != 0,
{
}

/// Parts are kept for half a minute.
pub proof fn law_parts_are_kept_half_a_minute(b: BufferForm, now: u64)
    ensures
        fresh(b, now, FRAGMENT_TTL_NANOS) <==> now < b.last_update + 30_000_000_000,
        MAX_RETRIES == 50,
        BACKOFF_MS == 5,
{
}

} // verus!
