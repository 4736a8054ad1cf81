//! The journal of unfinished transfers, from which they resume after a crash.
//!
//! The file that it is kept in is written elsewhere: the journal says when it is due and
//! what it holds.

use std::collections::hash_map::DefaultHasher;
use std::collections::HashMap;
use std::hash::Hasher;

use vstd::prelude::*;
use vstd::std_specs::hash::DefaultHasherAdditionalSpecFns;

use crate::net::codec;
use crate::path;
use crate::path::{FilePath, PathForm};
use crate::text;

verus! {

broadcast use vstd::std_specs::hash::group_hash_axioms;

/// Milliseconds between two writes of a journal that changes all the time.
pub const MIN_FLUSH_INTERVAL_MS: u64 = 500;

/// Which way a file goes.
#[derive(Clone, Copy, Debug, PartialEq, Eq, Hash, Structural)]
pub enum TransferDirection {
    Outgoing,
    Incoming,
}

/// How far a transfer has come.
#[derive(Debug)]
pub struct TransferRecord {
    pub id: u64,
    pub peer_id: String,
    pub direction: TransferDirection,
    pub path: FilePath,
    pub size: u64,
    pub offset: u64,
    pub created_at_ms: u64,
    pub updated_at_ms: u64,
}

/// A record as a value of mathematics.
pub struct RecordForm {
    pub id: u64,
    pub peer_id: Seq<char>,
    pub direction: TransferDirection,
    pub path: PathForm,
    pub size: u64,
    pub offset: u64,
    pub created_at_ms: u64,
    pub updated_at_ms: u64,
}

impl View for TransferRecord {
    type V = RecordForm;

    open spec fn view(&self) -> RecordForm {
        RecordForm {
            id: self.id,
            peer_id: self.peer_id@,
            direction: self.direction,
            path: self.path@,
            size: self.size,
            offset: self.offset,
            created_at_ms: self.created_at_ms,
            updated_at_ms: self.updated_at_ms,
        }
    }
}

impl TransferRecord {
    /// A copy of the record.
    pub fn copied(&self) -> (r: TransferRecord)
        ensures
            r@ == self@,
    {
        TransferRecord {
            id: self.id,
            peer_id: self.peer_id.as_str().to_owned(),
            direction: self.direction,
            path: self.path.copied(),
            size: self.size,
            offset: self.offset,
            created_at_ms: self.created_at_ms,
            updated_at_ms: self.updated_at_ms,
        }
    }
}

/// The records of a list.
pub open spec fn forms(v: Seq<TransferRecord>) -> Seq<RecordForm> {
    v.map_values(|r: TransferRecord| r@)
}

// ---------------------------------------------------------------- keys

/// The number of a direction within a key.
pub open spec fn direction_index(direction: TransferDirection) -> nat {
    match direction {
        TransferDirection::Outgoing => 0,
        TransferDirection::Incoming => 1,
    }
}

/// The key of a transfer: a hash of peer, direction, path text and size.
pub open spec fn transfer_id(
    peer_id: Seq<char>,
    direction: TransferDirection,
    path_text: Seq<char>,
    size: u64,
) -> u64 {
    DefaultHasher::spec_finish(
        seq![
            vstd::utf8::encode_utf8(peer_id),
            seq![0xffu8],
            codec::le(direction_index(direction), 8),
            vstd::utf8::encode_utf8(path_text),
            seq![0xffu8],
            codec::le(size as nat, 8),
        ],
    )
}

fn hash_text(h: &mut DefaultHasher, t: &str)
    ensures
        final(h)@ == old(h)@.push(vstd::utf8::encode_utf8(t@)).push(seq![0xffu8]),
{
    h.write(t.as_bytes());
    let end: [u8; 1] = [0xff];
    assert(end@ =~= seq![0xffu8]);
    h.write(end.as_slice());
}

fn hash_number(h: &mut DefaultHasher, n: u64)
    ensures
        final(h)@ == old(h)@.push(codec::le(n as nat, 8)),
{
    let mut bytes: Vec<u8> = Vec::new();
    codec::put_u64(&mut bytes, n);
    assert(bytes@ =~= codec::le(n as nat, 8));
    h.write(bytes.as_slice());
}

/// The key of a transfer.
pub fn stable_transfer_id(
    peer_id: &str,
    direction: TransferDirection,
    path: &FilePath,
    size: u64,
) -> (r: u64)
    ensures
        r == transfer_id(peer_id@, direction, path@.text, size),
{
    let mut h = DefaultHasher::new();
    hash_text(&mut h, peer_id);
    match direction {
        TransferDirection::Outgoing => hash_number(&mut h, 0),
        TransferDirection::Incoming => hash_number(&mut h, 1),
    }
    hash_text(&mut h, path.text.as_str());
    hash_number(&mut h, size);
    assert(h@ =~= seq![
        vstd::utf8::encode_utf8(peer_id@),
        seq![0xffu8],
        codec::le(direction_index(direction), 8),
        vstd::utf8::encode_utf8(path@.text),
        seq![0xffu8],
        codec::le(size as nat, 8),
    ]);
    h.finish()
}

// ---------------------------------------------------------------- order in the file

/// Order of records in the file: by peer, then by age, then by key.
pub open spec fn record_before(a: RecordForm, b: RecordForm) -> bool {
    ||| text::precedes(a.peer_id, b.peer_id)
    ||| a.peer_id == b.peer_id && a.created_at_ms < b.created_at_ms
    ||| a.peer_id == b.peer_id && a.created_at_ms == b.created_at_ms && a.id < b.id
}

proof fn lemma_record_total(a: RecordForm, b: RecordForm)
    ensures
        a.id != b.id ==> record_before(a, b) != record_before(b, a),
{
    text::lemma_precedes_total(a.peer_id, b.peer_id);
    text::lemma_precedes_total(b.peer_id, a.peer_id);
}

proof fn lemma_record_transitive(a: RecordForm, b: RecordForm, c: RecordForm)
    requires
        record_before(a, b),
        record_before(b, c),
    ensures
        record_before(a, c),
{
    if text::precedes(a.peer_id, b.peer_id) && text::precedes(b.peer_id, c.peer_id) {
        text::lemma_precedes_transitive(a.peer_id, b.peer_id, c.peer_id);
    }
}

/// Each record stands before all that follow it.
pub open spec fn in_file_order(s: Seq<RecordForm>) -> bool {
    forall|i: int, j: int|
        0 <= i < j < s.len() ==> record_before(#[trigger] s[i], #[trigger] s[j])
}

/// Each path stands before all that follow it; so none occurs twice.
pub open spec fn in_path_order(s: Seq<PathForm>) -> bool {
    forall|i: int, j: int|
        0 <= i < j < s.len() ==> path::parts_before(
            (#[trigger] s[i]).parts,
            (#[trigger] s[j]).parts,
        )
}

/// Whether a list holds a path.
pub open spec fn has_path(list: Seq<FilePath>, p: PathForm) -> bool {
    exists|k: int| 0 <= k < list.len() && (#[trigger] list[k])@.parts == p.parts
}

fn record_is_before(a: &TransferRecord, b: &TransferRecord) -> (r: bool)
    ensures
        r == record_before(a@, b@),
{
    if text::text_before(a.peer_id.as_str(), b.peer_id.as_str()) {
        return true;
    }
    if !text::same_text(a.peer_id.as_str(), b.peer_id.as_str()) {
        return false;
    }
    a.created_at_ms < b.created_at_ms || (a.created_at_ms == b.created_at_ms && a.id < b.id)
}

/// Puts a record in its place.
fn insert_record(list: &mut Vec<TransferRecord>, record: TransferRecord)
    requires
        in_file_order(forms(old(list)@)),
        forall|i: int| 0 <= i < old(list)@.len() ==> (#[trigger] old(list)@[i]).id != record.id,
    ensures
        in_file_order(forms(final(list)@)),
        exists|i: int|
            0 <= i <= old(list)@.len() && final(list)@ == #[trigger] old(list)@.insert(i, record),
{
    let ghost before = list@;
    let ghost s = forms(before);
    let mut i: usize = 0;
    while i < list.len() && record_is_before(&list[i], &record)
        invariant
            i <= list@.len(),
            list@ == before,
            s == forms(before),
            forall|k: int| 0 <= k < i ==> record_before(#[trigger] s[k], record@),
        decreases list@.len() - i,
    {
        assert(s[i as int] == list@[i as int]@);
        i += 1;
    }
    let ghost place = i as int;
    assert forall|k: int| place <= k < s.len() implies record_before(record@, #[trigger] s[k]) by {
        assert(s[place] == before[place]@);
        lemma_record_total(s[place], record@);
        if k > place {
            lemma_record_transitive(record@, s[place], s[k]);
        }
    }
    list.insert(i, record);
    assert(forms(list@) =~= s.insert(place, record@));
}

/// Puts a path in its place, unless it is there.
fn insert_path(list: &mut Vec<FilePath>, p: &FilePath)
    requires
        in_path_order(path::paths(old(list)@)),
    ensures
        in_path_order(path::paths(final(list)@)),
        forall|k: int|
            0 <= k < final(list)@.len() ==> (#[trigger] final(list)@[k])@ == p@ || old(
                list,
            )@.contains(final(list)@[k]),
        has_path(final(list)@, p@),
        forall|k: int|
            0 <= k < old(list)@.len() ==> has_path(final(list)@, (#[trigger] old(list)@[k])@),
{
    let ghost before = list@;
    let ghost s = path::paths(before);
    let mut i: usize = 0;
    while i < list.len() && list[i].before(p)
        invariant
            i <= list@.len(),
            list@ == before,
            s == path::paths(before),
            forall|k: int| 0 <= k < i ==> path::parts_before((#[trigger] s[k]).parts, p@.parts),
        decreases list@.len() - i,
    {
        assert(s[i as int] == list@[i as int]@);
        i += 1;
    }
    let ghost place = i as int;
    if i < list.len() && list[i].same(p) {
        assert(list@[place]@.parts == p@.parts);
        assert forall|k: int| 0 <= k < before.len() implies has_path(
            list@,
            (#[trigger] before[k])@,
        ) by {
            assert(list@[k]@.parts == before[k]@.parts);
        }
        return;
    }
    assert forall|k: int| place <= k < s.len() implies path::parts_before(
        p@.parts,
        (#[trigger] s[k]).parts,
    ) by {
        assert(s[place] == before[place]@);
        path::lemma_parts_total(s[place].parts, p@.parts);
        if k > place {
            path::lemma_parts_transitive(p@.parts, s[place].parts, s[k].parts);
        }
    }
    let q = p.copied();
    list.insert(i, q);
    assert(path::paths(list@) =~= s.insert(place, p@));
    assert(list@ == before.insert(place, q));
    assert(list@[place]@.parts == p@.parts);
    assert forall|k: int| 0 <= k < before.len() implies has_path(
        list@,
        (#[trigger] before[k])@,
    ) by {
        if k < place {
            assert(list@[k]@.parts == before[k]@.parts);
        } else {
            assert(list@[k + 1]@.parts == before[k]@.parts);
        }
    }
    assert forall|k: int| 0 <= k < list@.len() implies (#[trigger] list@[k])@ == p@
        || before.contains(list@[k]) by {
        if k < place {
            assert(list@[k] == before[k]);
        } else if k > place {
            assert(list@[k] == before[k - 1]);
        }
    }
}

// ---------------------------------------------------------------- journal

/// The journal.
pub struct TransferJournal {
    pub path: FilePath,
    pub records: HashMap<u64, TransferRecord>,
    pub dirty: bool,
    pub last_flush_ms: u64,
    pub min_flush_interval_ms: u64,
}

/// The records by key, as values of mathematics.
pub open spec fn records(m: Map<u64, TransferRecord>) -> Map<u64, RecordForm> {
    m.map_values(|r: TransferRecord| r@)
}

/// The record of a transfer after progress was noted.
pub open spec fn progressed(
    m: Map<u64, RecordForm>,
    peer_id: Seq<char>,
    direction: TransferDirection,
    p: PathForm,
    size: u64,
    offset: u64,
    now: u64,
) -> RecordForm {
    let id = transfer_id(peer_id, direction, p.text, size);
    let reached = if offset < size {
        offset
    } else {
        size
    };
    if m.contains_key(id) {
        RecordForm { offset: reached, updated_at_ms: now, ..m[id] }
    } else {
        RecordForm {
            id,
            peer_id,
            direction,
            path: p,
            size,
            offset: reached,
            created_at_ms: now,
            updated_at_ms: now,
        }
    }
}

/// Whether a record is of a file on its way to a peer.
pub open spec fn goes_to(r: RecordForm, peer_id: Seq<char>) -> bool {
    r.direction == TransferDirection::Outgoing && r.peer_id == peer_id
}

/// Whether a path is that of a file on its way to a peer.
pub open spec fn is_pending(m: Map<u64, RecordForm>, peer_id: Seq<char>, p: PathForm) -> bool {
    exists|id: u64| #[trigger]
        m.contains_key(id) && goes_to(m[id], peer_id) && m[id].path == p
}

/// Whether a list holds exactly these records, in the order of the file.
pub open spec fn lists(s: Seq<RecordForm>, m: Map<u64, RecordForm>) -> bool {
    &&& in_file_order(s)
    &&& forall|i: int|
        0 <= i < s.len() ==> m.contains_key((#[trigger] s[i]).id) && m[s[i].id] == s[i]
    &&& forall|id: u64| #[trigger] m.contains_key(id) ==> s.contains(m[id])
}

/// Whether a journal that changed is due to be written.
pub open spec fn due(dirty: bool, now: u64, last_flush_ms: u64) -> bool {
    dirty && now - last_flush_ms >= MIN_FLUSH_INTERVAL_MS
}

impl TransferJournal {
    /// Each record stands under its key, and the interval between two writes is the usual one.
    pub open spec fn wf(self) -> bool {
        &&& forall|id: u64| #[trigger]
            self.records@.contains_key(id) ==> self.records@[id].id == id
        &&& self.min_flush_interval_ms == MIN_FLUSH_INTERVAL_MS
    }

    /// The records by key.
    pub open spec fn by_key(self) -> Map<u64, RecordForm> {
        records(self.records@)
    }

    /// Whether a result asks for this journal to be written: `None` where it is not due.
    pub open spec fn asks(self, r: Option<Vec<TransferRecord>>, is_due: bool) -> bool {
        match r {
            Some(list) => is_due && lists(forms(list@), self.by_key()),
            None => !is_due,
        }
    }

    /// A journal without records.
    pub fn empty(path: FilePath) -> (r: TransferJournal)
        ensures
            r.wf(),
            r.path == path,
            r.by_key() == Map::<u64, RecordForm>::empty(),
            !r.dirty,
            r.last_flush_ms == 0,
    {
        let r = TransferJournal {
            path,
            records: HashMap::new(),
            dirty: false,
            last_flush_ms: 0,
            min_flush_interval_ms: MIN_FLUSH_INTERVAL_MS,
        };
        assert(r.by_key() =~= Map::<u64, RecordForm>::empty());
        r
    }

    /// A journal with the records read from its file; of two with one key the later counts.
    pub fn from_records(path: FilePath, list: Vec<TransferRecord>) -> (r: TransferJournal)
        ensures
            r.wf(),
            r.path == path,
            !r.dirty,
            r.last_flush_ms == 0,
            r.by_key() == loaded(forms(list@)),
    {
        let mut r = TransferJournal::empty(path);
        let mut i: usize = 0;
        let ghost s = forms(list@);
        assert(s.take(0) =~= Seq::<RecordForm>::empty());
        while i < list.len()
            invariant
                i <= list@.len(),
                s == forms(list@),
                r.wf(),
                r.path == path,
                !r.dirty,
                r.last_flush_ms == 0,
                    r.by_key() == loaded(s.take(i as int)),
            decreases list@.len() - i,
        {
            let record = list[i].copied();
            let ghost before = r.by_key();
            r.records.insert(record.id, record);
            assert(s.take(i + 1).drop_last() =~= s.take(i as int));
            assert(r.by_key() =~= before.insert(record.id, record@));
            i += 1;
        }
        assert(s.take(i as int) =~= s);
        r
    }

    /// The file that the journal is kept in.
    pub fn path(&self) -> (r: &FilePath)
        ensures
            *r == self.path,
    {
        &self.path
    }

    fn ids(&self) -> (r: Vec<u64>)
        ensures
            r@.no_duplicates(),
            r@.to_set() == self.records@.dom(),
    {
        let mut r: Vec<u64> = Vec::new();
        for key in it: self.records.keys()
            invariant
                it.seq().unref().to_set() == self.records@.dom(),
                it.seq().no_duplicates(),
                r@ == it.seq().unref().take(it.index() as int),
        {
            r.push(*key);
            assert(r@ =~= it.seq().unref().take(it.index() + 1));
        }
        assert(r@.to_set() =~= self.records@.dom()) by {
            broadcast use vstd::seq_lib::group_seq_properties;

        }
        r
    }

    /// The files still on their way to a peer, each once, in path order.
    pub fn pending_outgoing_for_peer(&self, peer_id: &str) -> (r: Vec<FilePath>)
        ensures
            in_path_order(path::paths(r@)),
            forall|i: int|
                0 <= i < r@.len() ==> is_pending(self.by_key(), peer_id@, (#[trigger] r@[i])@),
            forall|id: u64| #[trigger]
                self.by_key().contains_key(id) && goes_to(self.by_key()[id], peer_id@) ==> has_path(
                    r@,
                    self.by_key()[id].path,
                ),
    {
        let ids = self.ids();
        let ghost m = self.by_key();
        let mut r: Vec<FilePath> = Vec::new();
        let mut n: usize = 0;
        while n < ids.len()
            invariant
                n <= ids@.len(),
                m == self.by_key(),
                ids@.to_set() == self.records@.dom(),
                in_path_order(path::paths(r@)),
                forall|i: int|
                    0 <= i < r@.len() ==> is_pending(m, peer_id@, (#[trigger] r@[i])@),
                forall|k: int|
                    0 <= k < n && goes_to(m[#[trigger] ids@[k]], peer_id@) ==> has_path(
                        r@,
                        m[ids@[k]].path,
                    ),
            decreases ids@.len() - n,
        {
            let id: u64 = ids[n];
            assert(ids@.to_set().contains(id));
            let ghost before = r@;
            if let Some(record) = self.records.get(&id) {
                assert(m.contains_key(id) && m[id] == record@);
                if record.direction == TransferDirection::Outgoing && text::same_text(
                    record.peer_id.as_str(),
                    peer_id,
                ) {
                    insert_path(&mut r, &record.path);
                    assert(is_pending(m, peer_id@, record.path@));
                    assert forall|p: PathForm| has_path(before, p) implies has_path(r@, p) by {
                        let i = choose|i: int|
                            0 <= i < before.len() && (#[trigger] before[i])@.parts == p.parts;
                        assert(has_path(r@, before[i]@));
                    }
                }
            }
            n += 1;
        }
        proof {
            assert forall|id: u64| #[trigger]
                m.contains_key(id) && goes_to(m[id], peer_id@) implies has_path(r@, m[id].path) by {
                assert(ids@.to_set().contains(id));
                let k = choose|k: int| 0 <= k < ids@.len() && ids@[k] == id;
                assert(goes_to(m[ids@[k]], peer_id@));
            }
        }
        r
    }
}

/// The records of a list by key; of two with one key the later counts.
pub open spec fn loaded(s: Seq<RecordForm>) -> Map<u64, RecordForm>
    decreases s.len(),
{
    if s.len() == 0 {
        Map::empty()
    } else {
        loaded(s.drop_last()).insert(s.last().id, s.last())
    }
}

impl TransferJournal {
    /// All records in the order of the file.
    pub fn ordered_records(&self) -> (r: Vec<TransferRecord>)
        requires
            self.wf(),
        ensures
            lists(forms(r@), self.by_key()),
    {
        let ids = self.ids();
        let ghost m = self.by_key();
        let mut r: Vec<TransferRecord> = Vec::new();
        let mut n: usize = 0;
        while n < ids.len()
            invariant
                n <= ids@.len(),
                self.wf(),
                m == self.by_key(),
                ids@.no_duplicates(),
                ids@.to_set() == self.records@.dom(),
                in_file_order(forms(r@)),
                forall|i: int|
                    0 <= i < r@.len() ==> ids@.take(n as int).contains((#[trigger] r@[i]).id)
                        && m.contains_key(r@[i].id) && m[r@[i].id] == r@[i]@,
                forall|k: int| 0 <= k < n ==> has_record(r@, m[#[trigger] ids@[k]]),
            decreases ids@.len() - n,
        {
            let id: u64 = ids[n];
            assert(ids@.to_set().contains(id));
            assert(self.records@.contains_key(id));
            let ghost before = r@;
            assert(ids@.take(n + 1) =~= ids@.take(n as int).push(id));
            if let Some(record) = self.records.get(&id) {
                assert(m.contains_key(id) && m[id] == record@);
                let copy = record.copied();
                assert forall|i: int| 0 <= i < r@.len() implies (#[trigger] r@[i]).id
                    != copy.id by {
                    if r@[i].id == id {
                        let k = choose|k: int| 0 <= k < n && ids@.take(n as int)[k] == id;
                        assert(ids@[k] == ids@[n as int]);
                    }
                }
                insert_record(&mut r, copy);
                proof {
                    let place = choose|i: int|
                        0 <= i <= before.len() && r@ == #[trigger] before.insert(i, copy);
                    assert(r@[place]@ == m[id]);
                    assert forall|i: int| 0 <= i < r@.len() implies ids@.take(n + 1).contains(
                        (#[trigger] r@[i]).id,
                    ) && m.contains_key(r@[i].id) && m[r@[i].id] == r@[i]@ by {
                        let seen = ids@.take(n as int);
                        assert(ids@.take(n + 1)[n as int] == id);
                        if i != place {
                            let old_i = if i < place {
                                i
                            } else {
                                i - 1
                            };
                            assert(r@[i] == before[old_i]);
                            let j = choose|j: int| 0 <= j < n && seen[j] == before[old_i].id;
                            assert(ids@.take(n + 1)[j] == r@[i].id);
                        }
                    }
                    assert forall|k: int| 0 <= k < n implies has_record(
                        r@,
                        m[#[trigger] ids@[k]],
                    ) by {
                        let i = choose|i: int|
                            0 <= i < before.len() && (#[trigger] before[i])@ == m[ids@[k]];
                        if i < place {
                            assert(r@[i]@ == m[ids@[k]]);
                        } else {
                            assert(r@[i + 1]@ == m[ids@[k]]);
                        }
                    }
                }
            }
            n += 1;
        }
        proof {
            let s = forms(r@);
            assert forall|id: u64| #[trigger] m.contains_key(id) implies s.contains(m[id]) by {
                assert(ids@.to_set().contains(id));
                let k = choose|k: int| 0 <= k < ids@.len() && ids@[k] == id;
                assert(has_record(r@, m[ids@[k]]));
                let i = choose|i: int| 0 <= i < r@.len() && (#[trigger] r@[i])@ == m[id];
                assert(s[i] == m[id]);
            }
            assert forall|i: int| 0 <= i < s.len() implies m.contains_key((#[trigger] s[i]).id)
                && m[s[i].id] == s[i] by {
                assert(s[i] == r@[i]@);
            }
        }
        r
    }

    /// Notes how far a transfer has come, never beyond its size. Gives the records to write
    /// where the journal is due.
    pub fn upsert_progress(
        &mut self,
        peer_id: &str,
        direction: TransferDirection,
        path: &FilePath,
        size: u64,
        offset: u64,
        now: u64,
    ) -> (r: Option<Vec<TransferRecord>>)
        requires
            old(self).wf(),
        ensures
            final(self).wf(),
            final(self).path == old(self).path,
            final(self).last_flush_ms == old(self).last_flush_ms,
            final(self).dirty,
            final(self).by_key() == old(self).by_key().insert(
                transfer_id(peer_id@, direction, path@.text, size),
                progressed(old(self).by_key(), peer_id@, direction, path@, size, offset, now),
            ),
            final(self).asks(r, due(true, now, old(self).last_flush_ms)),
    {
        let id: u64 = stable_transfer_id(peer_id, direction, path, size);
        let ghost before = self.by_key();
        let ghost raw = self.records@;
        let reached: u64 = if offset < size {
            offset
        } else {
            size
        };
        let record = match self.records.remove(&id) {
            Some(known) => {
                assert(raw.contains_key(id));
                TransferRecord {
                    id: known.id,
                    peer_id: known.peer_id,
                    direction: known.direction,
                    path: known.path,
                    size: known.size,
                    offset: reached,
                    created_at_ms: known.created_at_ms,
                    updated_at_ms: now,
                }
            },
            None => TransferRecord {
                id,
                peer_id: peer_id.to_owned(),
                direction,
                path: path.copied(),
                size,
                offset: reached,
                created_at_ms: now,
                updated_at_ms: now,
            },
        };
        assert(record@ == progressed(before, peer_id@, direction, path@, size, offset, now));
        self.records.insert(id, record);
        assert(self.by_key() =~= before.insert(id, record@));
        self.dirty = true;
        self.flush_if_due(now)
    }

    /// Forgets a transfer. Gives the records to write where there was one.
    pub fn remove(
        &mut self,
        peer_id: &str,
        direction: TransferDirection,
        path: &FilePath,
        size: u64,
    ) -> (r: Option<Vec<TransferRecord>>)
        requires
            old(self).wf(),
        ensures
            final(self).wf(),
            final(self).path == old(self).path,
            final(self).last_flush_ms == old(self).last_flush_ms,
            ({
                let id = transfer_id(peer_id@, direction, path@.text, size);
                let known = old(self).by_key().contains_key(id);
                &&& final(self).by_key() == old(self).by_key().remove(id)
                &&& final(self).dirty == (old(self).dirty || known)
                &&& final(self).asks(r, known)
            }),
    {
        let id: u64 = stable_transfer_id(peer_id, direction, path, size);
        let ghost before = self.by_key();
        let found = self.records.remove(&id).is_some();
        assert(self.by_key() =~= before.remove(id));
        if found {
            self.dirty = true;
            self.flush_if_due_force()
        } else {
            None
        }
    }

    /// The records to write, where the journal changed and was last written long enough ago.
    pub fn flush_if_due(&self, now: u64) -> (r: Option<Vec<TransferRecord>>)
        requires
            self.wf(),
        ensures
            self.asks(r, due(self.dirty, now, self.last_flush_ms)),
    {
        if !self.dirty {
            return None;
        }
        let age: u64 = if now >= self.last_flush_ms {
            now - self.last_flush_ms
        } else {
            0
        };
        if age < self.min_flush_interval_ms {
            return None;
        }
        Some(self.ordered_records())
    }

    /// The records to write, where the journal changed.
    pub fn flush_if_due_force(&self) -> (r: Option<Vec<TransferRecord>>)
        requires
            self.wf(),
        ensures
            self.asks(r, self.dirty),
    {
        if !self.dirty {
            return None;
        }
        Some(self.ordered_records())
    }

    /// Notes that the records were written.
    pub fn flushed(&mut self, now: u64)
        requires
            old(self).wf(),
        ensures
            final(self).wf(),
            final(self).path == old(self).path,
            final(self).records == old(self).records,
            !final(self).dirty,
            final(self).last_flush_ms == now,
    {
        self.dirty = false;
        self.last_flush_ms = now;
    }
}

/// Whether a list holds a record.
pub open spec fn has_record(list: Seq<TransferRecord>, r: RecordForm) -> bool {
    exists|k: int| 0 <= k < list.len() && (#[trigger] list[k])@ == r
}

/// Progress on one transfer never makes a second record: the key stays, the first time of
/// creation stays, and no other transfer's record changes.
pub proof fn law_one_record_per_transfer(
    m: Map<u64, RecordForm>,
    peer_id: Seq<char>,
    direction: TransferDirection,
    p: PathForm,
    size: u64,
    first: u64,
    second: u64,
    then: u64,
    later: u64,
)
    ensures
        ({
            let id = transfer_id(peer_id, direction, p.text, size);
            let once = m.insert(id, progressed(m, peer_id, direction, p, size, first, then));
            let twice = once.insert(
                id,
                progressed(once, peer_id, direction, p, size, second, later),
            );
            &&& twice.dom() == once.dom()
            &&& twice[id].created_at_ms == once[id].created_at_ms
            &&& twice[id].updated_at_ms == later
            &&& forall|other: u64|
                other != id && m.contains_key(other) ==> #[trigger] twice[other] == m[other]
        }),
{
    let id = transfer_id(peer_id, direction, p.text, size);
    let once = m.insert(id, progressed(m, peer_id, direction, p, size, first, then));
    let twice = once.insert(id, progressed(once, peer_id, direction, p, size, second, later));
    assert(twice.dom() =~= once.dom());
}

/// The offset of a record never passes the size that it was noted with.
pub proof fn law_offset_within_size(
    m: Map<u64, RecordForm>,
    peer_id: Seq<char>,
    direction: TransferDirection,
    p: PathForm,
    size: u64,
    offset: u64,
    now: u64,
)
    ensures
        progressed(m, peer_id, direction, p, size, offset, now).offset <= size,
        offset <= size ==> progressed(m, peer_id, direction, p, size, offset, now).offset == offset,
{
}

/// Removing a transfer whose progress was noted leaves the journal as if it had never been
/// there.
pub proof fn law_remove_undoes_upsert(
    m: Map<u64, RecordForm>,
    peer_id: Seq<char>,
    direction: TransferDirection,
    p: PathForm,
    size: u64,
    offset: u64,
    now: u64,
)
    requires
        !m.contains_key(transfer_id(peer_id, direction, p.text, size)),
    ensures
        ({
            let id = transfer_id(peer_id, direction, p.text, size);
            m.insert(id, progressed(m, peer_id, direction, p, size, offset, now)).remove(id) == m
        }),
{
    let id = transfer_id(peer_id, direction, p.text, size);
    assert(m.insert(id, progressed(m, peer_id, direction, p, size, offset, now)).remove(id) =~= m);
}

proof fn lemma_loaded_listed(s: Seq<RecordForm>, n: int)
    requires
        in_file_order(s),
        forall|i: int, j: int|
            0 <= i < j < s.len() ==> (#[trigger] s[i]).id != (#[trigger] s[j]).id,
        0 <= n <= s.len(),
    ensures
        forall|i: int|
            0 <= i < n ==> loaded(s.take(n)).contains_key((#[trigger] s[i]).id) && loaded(
                s.take(n),
            )[s[i].id] == s[i],
        forall|id: u64| #[trigger]
            loaded(s.take(n)).contains_key(id) ==> exists|i: int|
                0 <= i < n && (#[trigger] s[i]).id == id,
    decreases n,
{
    if n > 0 {
        lemma_loaded_listed(s, n - 1);
        assert(s.take(n).drop_last() =~= s.take(n - 1));
        assert(s.take(n).last() == s[n - 1]);
        assert forall|id: u64| #[trigger] loaded(s.take(n)).contains_key(id) implies exists|i: int|
            0 <= i < n && (#[trigger] s[i]).id == id by {
            if id == s[n - 1].id {
                assert(s[n - 1].id == id);
            } else {
                assert(loaded(s.take(n - 1)).contains_key(id));
            }
        }
    } else {
        assert(s.take(0) =~= Seq::<RecordForm>::empty());
    }
}

/// A journal read back from the records that it gave to write holds the same records.
pub proof fn law_written_journal_is_read(s: Seq<RecordForm>, m: Map<u64, RecordForm>)
    requires
        lists(s, m),
        forall|id: u64| #[trigger] m.contains_key(id) ==> m[id].id == id,
    ensures
        loaded(s) == m,
{
    assert forall|i: int, j: int| 0 <= i < j < s.len() implies (#[trigger] s[i]).id != (
    #[trigger] s[j]).id by {
        if s[i].id == s[j].id {
            assert(s[i] == s[j]);
            text::lemma_precedes_total(s[i].peer_id, s[i].peer_id);
            assert(record_before(s[i], s[j]));
        }
    }
    lemma_loaded_listed(s, s.len() as int);
    assert(s.take(s.len() as int) =~= s);
    assert forall|id: u64| m.contains_key(id) == #[trigger] loaded(s).contains_key(id) by {
        if m.contains_key(id) {
            let i = choose|i: int| 0 <= i < s.len() && s[i] == m[id];
            assert(loaded(s).contains_key(s[i].id));
        }
    }
    assert forall|id: u64| m.contains_key(id) implies #[trigger] loaded(s)[id] == m[id] by {
        let i = choose|i: int| 0 <= i < s.len() && s[i] == m[id];
        assert(loaded(s)[s[i].id] == s[i]);
    }
    assert(loaded(s) =~= m);
}

/// A transfer that was not known is noted with the peer, direction, path and size that it was noted
/// with, under its key, from now on; its offset is the one given, but no more than the size.
pub proof fn law_new_transfer_is_noted_whole(
    m: Map<u64, RecordForm>,
    peer_id: Seq<char>,
    direction: TransferDirection,
    p: PathForm,
    size: u64,
    offset: u64,
    now: u64,
)
    requires
        !m.contains_key(transfer_id(peer_id, direction, p.text, size)),
    ensures
        ({
            let r = progressed(m, peer_id, direction, p, size, offset, now);
            &&& r.id == transfer_id(peer_id, direction, p.text, size)
            &&& r.peer_id == peer_id
            &&& r.direction == direction
            &&& r.path == p
            &&& r.size == size
            &&& offset <= size ==> r.offset == offset
            &&& offset > size ==> r.offset == size
            &&& r.created_at_ms == now
            &&& r.updated_at_ms == now
        }),
{
}

/// Progress on a known transfer moves its offset and the time of its last change, to what is given
/// even where it goes back, and nothing else.
pub proof fn law_known_transfer_moves_its_offset(
    m: Map<u64, RecordForm>,
    peer_id: Seq<char>,
    direction: TransferDirection,
    p: PathForm,
    size: u64,
    offset: u64,
    now: u64,
)
    requires
        m.contains_key(transfer_id(peer_id, direction, p.text, size)),
    ensures
        ({
            let was = m[transfer_id(peer_id, direction, p.text, size)];
            let r = progressed(m, peer_id, direction, p, size, offset, now);
            &&& r.id == was.id
            &&& r.peer_id == was.peer_id
            &&& r.direction == was.direction
            &&& r.path == was.path
            &&& r.size == was.size
            &&& r.created_at_ms == was.created_at_ms
            &&& offset <= size ==> r.offset == offset
            &&& offset > size ==> r.offset == size
            &&& r.updated_at_ms == now
        }),
{
}

/// A key is made of the peer, the direction, the path's text and the size, and of nothing else: it
/// is the hash of their bytes one behind the other, each text closed by a byte that no text holds.
pub proof fn law_key_is_made_of_all(
    peer_id: Seq<char>,
    direction: TransferDirection,
    path_text: Seq<char>,
    size: u64,
)
    ensures
        transfer_id(peer_id, direction, path_text, size) == DefaultHasher::spec_finish(
            seq![
                vstd::utf8::encode_utf8(peer_id),
                seq![255u8],
                if direction is Outgoing {
                    seq![0u8, 0, 0, 0, 0, 0, 0, 0]
                } else {
                    seq![1u8, 0, 0, 0, 0, 0, 0, 0]
                },
                vstd::utf8::encode_utf8(path_text),
                seq![255u8],
                codec::le(size as nat, 8),
            ],
        ),
{
    reveal_with_fuel(codec::le, 9);
    assert(codec::le(0, 8) =~= seq![0u8, 0, 0, 0, 0, 0, 0, 0]);
    assert(codec::le(1, 8) =~= seq![1u8, 0, 0, 0, 0, 0, 0, 0]);
}

/// A journal that did not change is never due; one that did is due from half a second after it was
/// last written, and not before.
pub proof fn law_changes_are_written_in_time(dirty: bool, now: u64, last_flush_ms: u64)
    ensures
        due(dirty, now, last_flush_ms) <==> dirty && now >= last_flush_ms + 500,
{
}

/// Records stand in the file by peer, those of one peer by age, those of one age by key.
pub proof fn law_records_stand_by_peer_and_age(a: RecordForm, b: RecordForm)
    ensures
        a.peer_id != b.peer_id ==> (record_before(a, b) <==> text::precedes(a.peer_id, b.peer_id)),
        a.peer_id == b.peer_id && a.created_at_ms != b.created_at_ms ==> (record_before(a, b)
            <==> a.created_at_ms < b.created_at_ms),
        a.peer_id == b.peer_id && a.created_at_ms == b.created_at_ms ==> (record_before(a, b)
            <==> a.id < b.id),
{
    text::lemma_precedes_total(a.peer_id, a.peer_id);
}

/// A file of the journal holds every record once and no other, each before those that it stands
/// before.
pub proof fn law_file_holds_each_record_once(
    s: Seq<RecordForm>,
    m: Map<u64, RecordForm>,
    i: int,
    j: int,
    id: u64,
)
    requires
        lists(s, m),
        0 <= i < j < s.len(),
        m.contains_key(id),
    ensures
        s.contains(m[id]),
        m.contains_key(s[i].id) && m[s[i].id] == s[i],
        s[i] != s[j],
        text::precedes(s[i].peer_id, s[j].peer_id) || (s[i].peer_id == s[j].peer_id && (
        s[i].created_at_ms < s[j].created_at_ms || (s[i].created_at_ms == s[j].created_at_ms
            && s[i].id < s[j].id))),
{
    assert(record_before(s[i], s[j]));
    text::lemma_precedes_total(s[i].peer_id, s[i].peer_id);
}

/// A file is on its way to a peer where a record of a transfer to that peer has its path: records of
/// other peers and of files that come in do not count.
pub proof fn law_pending_files_go_to_the_peer(
    m: Map<u64, RecordForm>,
    peer_id: Seq<char>,
    p: PathForm,
    id: u64,
)
    ensures
        m.contains_key(id) && m[id].peer_id == peer_id && m[id].direction is Outgoing && m[id].path
            == p ==> goes_to(m[id], peer_id) && is_pending(m, peer_id, p),
        goes_to(m[id], peer_id) ==> m[id].peer_id == peer_id && m[id].direction is Outgoing,
        (forall|k: u64| #[trigger]
            m.contains_key(k) ==> m[k].peer_id != peer_id || m[k].direction is Incoming || m[k].path
                != p) ==> !is_pending(m, peer_id, p),
{
}

/// Of the records that are read, each stands under its own key, in place of one that came before
/// under that key; the others stay.
pub proof fn law_later_records_count(s: Seq<RecordForm>, r: RecordForm, other: u64)
    requires
        other != r.id,
    ensures
        loaded(Seq::<RecordForm>::empty()).dom().len() == 0,
        loaded(s.push(r)).contains_key(r.id),
        loaded(s.push(r))[r.id] == r,
        loaded(s.push(r)).contains_key(other) <==> loaded(s).contains_key(other),
        loaded(s).contains_key(other) ==> loaded(s.push(r))[other] == loaded(s)[other],
{
    assert(s.push(r).drop_last() =~= s);
}

/// Files are listed in the order of their paths, each of them once; a path is listed where one of the
/// list has its components.
pub proof fn law_files_are_listed_once(
    list: Seq<FilePath>,
    p: PathForm,
    i: int,
    j: int,
)
    ensures
        in_path_order(path::paths(list)) && 0 <= i < j < list.len() ==> path::parts_before(
            list[i]@.parts,
            list[j]@.parts,
        ),
        0 <= i < list.len() && list[i]@.parts == p.parts ==> has_path(list, p),
        (forall|k: int| 0 <= k < list.len() ==> (#[trigger] list[k])@.parts != p.parts)
            ==> !has_path(list, p),
{
    let all = path::paths(list);
    if in_path_order(all) && 0 <= i < j < list.len() {
        assert(path::parts_before(all[i].parts, all[j].parts));
    }
}

impl TransferJournal {
    /// All records are to be written where it is time, and none where it is not.
    pub proof fn law_records_are_written_when_due(self, r: Option<Vec<TransferRecord>>, due: bool)
        requires
            self.asks(r, due),
        ensures
            due <==> r is Some,
            r is Some ==> lists(forms(r->0@), self.by_key()),
    {
    }

    /// The records stand under their keys.
    pub proof fn law_records_stand_under_their_keys(self, id: u64)
        ensures
            self.by_key().contains_key(id) <==> self.records@.contains_key(id),
            self.records@.contains_key(id) ==> self.by_key()[id] == self.records@[id]@,
            self.wf() && self.records@.contains_key(id) ==> self.by_key()[id].id == id,
            self.wf() ==> self.min_flush_interval_ms == 500,
    {
    }
}

} // verus!
