//! The downloads: what they are, where they came from, and which of them are shown.

use vstd::prelude::*;

use crate::order;
use crate::path;
use crate::path::{FilePath, PathForm};
use crate::text;
use crate::ui::state;
use crate::ui::state::{DownloadEntry, DownloadKind, HistoryFilter};

verus! {

// ---------------------------------------------------------------- kinds

/// The place of the last full stop; -1 where there is none.
pub open spec fn last_dot(b: Seq<u8>) -> int
    decreases b.len(),
{
    if b.len() == 0 {
        -1
    } else if b.last() == 46 {
        b.len() - 1
    } else {
        last_dot(b.drop_last())
    }
}

/// The extension of a path: what follows the last full stop of its name, unless the name
/// begins with it; where it is UTF-8.
pub open spec fn extension_of(p: PathForm) -> Option<Seq<char>> {
    if p.parts.len() > 0 && p.parts.last().rank == path::RANK_NAME && last_dot(
        p.parts.last().bytes,
    ) > 0 {
        let ext = p.parts.last().bytes.skip(last_dot(p.parts.last().bytes) + 1);
        if vstd::utf8::valid_utf8(ext) {
            Some(vstd::utf8::decode_utf8(ext))
        } else {
            None
        }
    } else {
        None
    }
}

/// The kind of files with an extension in lower case.
pub open spec fn kind_of(ext: Seq<char>) -> DownloadKind {
    if ext == "mp3"@ || ext == "flac"@ || ext == "wav"@ || ext == "mp4"@ || ext == "mkv"@ || ext
        == "mov"@ || ext == "avi"@ {
        DownloadKind::Media
    } else if ext == "pdf"@ || ext == "doc"@ || ext == "docx"@ || ext == "txt"@ || ext == "md"@
        || ext == "ppt"@ || ext == "pptx"@ {
        DownloadKind::Document
    } else if ext == "zip"@ || ext == "tar"@ || ext == "gz"@ || ext == "xz"@ || ext == "7z"@ || ext
        == "rar"@ {
        DownloadKind::Archive
    } else if ext == "exe"@ || ext == "msi"@ || ext == "apk"@ || ext == "bin"@ || ext
        == "appimage"@ {
        DownloadKind::Binary
    } else {
        DownloadKind::Other
    }
}

/// The kind of a file, by its extension without regard to case.
pub open spec fn classified(p: PathForm) -> DownloadKind {
    kind_of(
        match extension_of(p) {
            Some(ext) => text::lowered(ext),
            None => text::lowered(""@),
        },
    )
}

fn extension(p: &FilePath) -> (r: Option<String>)
    ensures
        text::text_in(r) == extension_of(p@),
{
    if p.parts.len() == 0 {
        return None;
    }
    let last = &p.parts[p.parts.len() - 1];
    assert(p@.parts.last() == last@);
    if last.rank != path::RANK_NAME {
        return None;
    }
    let ghost b = last.bytes@;
    let size: usize = last.bytes.len();
    let mut i: usize = size;
    assert(b.take(i as int) =~= b);
    while i > 0 && last.bytes[i - 1] != 46
        invariant
            i <= size,
            size == last.bytes@.len(),
            b == last.bytes@,
            last_dot(b) == last_dot(b.take(i as int)),
        decreases i,
    {
        assert(b.take(i as int).drop_last() =~= b.take(i - 1));
        i -= 1;
    }
    if i <= 1 {
        return None;
    }
    let tail = vstd::slice::slice_subrange(last.bytes.as_slice(), i, size);
    assert(tail@ =~= b.skip(i as int));
    text::utf8_text(tail)
}

/// The kind of a file.
pub fn classify_download(p: &FilePath) -> (r: DownloadKind)
    ensures
        r == classified(p@),
{
    let ext = match extension(p) {
        Some(ext) => text::to_lower(ext.as_str()),
        None => text::to_lower(""),
    };
    let e = ext.as_str();
    if text::same_text(e, "mp3") || text::same_text(e, "flac") || text::same_text(e, "wav")
        || text::same_text(e, "mp4") || text::same_text(e, "mkv") || text::same_text(e, "mov")
        || text::same_text(e, "avi") {
        DownloadKind::Media
    } else if text::same_text(e, "pdf") || text::same_text(e, "doc") || text::same_text(e, "docx")
        || text::same_text(e, "txt") || text::same_text(e, "md") || text::same_text(e, "ppt")
        || text::same_text(e, "pptx") {
        DownloadKind::Document
    } else if text::same_text(e, "zip") || text::same_text(e, "tar") || text::same_text(e, "gz")
        || text::same_text(e, "xz") || text::same_text(e, "7z") || text::same_text(e, "rar") {
        DownloadKind::Archive
    } else if text::same_text(e, "exe") || text::same_text(e, "msi") || text::same_text(e, "apk")
        || text::same_text(e, "bin") || text::same_text(e, "appimage") {
        DownloadKind::Binary
    } else {
        DownloadKind::Other
    }
}

/// Whether a file is the index of the downloads, or a copy in the making.
pub fn is_download_meta_file(p: &FilePath) -> (r: bool)
    ensures
        r == is_meta(p@),
{
    match p.file_name() {
        Some(name) => text::starts_with(name.as_str(), ".download_meta.json"),
        None => false,
    }
}

/// Whether a file is the index of the downloads, or a copy in the making.
pub open spec fn is_meta(p: PathForm) -> bool {
    match path::name_of(p) {
        Some(name) => text::begins(name, ".download_meta.json"@),
        None => false,
    }
}

// ---------------------------------------------------------------- index of senders

/// Who sent a download: its key in the index, and the peer.
#[derive(Debug)]
pub struct DownloadPeer {
    pub key: String,
    pub peer: String,
}

/// The peers of an index, by key. Where a key stands twice, its last peer counts.
pub open spec fn index_of(v: Seq<DownloadPeer>) -> Map<Seq<char>, Seq<char>>
    decreases v.len(),
{
    if v.len() == 0 {
        Map::empty()
    } else {
        index_of(v.drop_last()).insert(v.last().key@, v.last().peer@)
    }
}

/// Whether no key of an index stands twice.
pub open spec fn each_once(v: Seq<DownloadPeer>) -> bool {
    forall|i: int, j: int|
        0 <= i < j < v.len() ==> (#[trigger] v[i]).key@ != (#[trigger] v[j]).key@
}

/// Whether a key stands in an index.
pub open spec fn keyed(v: Seq<DownloadPeer>, key: Seq<char>) -> bool {
    exists|i: int| 0 <= i < v.len() && (#[trigger] v[i]).key@ == key
}

/// The peer under a key.
pub open spec fn peer_under(index: Map<Seq<char>, Seq<char>>, key: Seq<char>) -> Option<Seq<char>> {
    if index.contains_key(key) {
        Some(index[key])
    } else {
        None
    }
}

/// The key of a download in the index: its path below the downloads, with forward slashes.
pub fn relative_download_key(relative: &str) -> (r: String)
    ensures
        r@ == text::replaced(relative@, '\\', '/'),
{
    text::replace_char(relative, '\\', '/')
}

fn find_peer(index: &Vec<DownloadPeer>, key: &str) -> (r: Option<String>)
    ensures
        text::text_in(r) == peer_under(index_of(index@), key@),
{
    let ghost all = index@;
    let mut i: usize = index.len();
    assert(all.take(i as int) =~= all);
    while i > 0
        invariant
            i <= index@.len(),
            all == index@,
            peer_under(index_of(all), key@) == peer_under(index_of(all.take(i as int)), key@),
        decreases i,
    {
        let entry = &index[i - 1];
        assert(all.take(i as int).last() == *entry);
        assert(all.take(i as int).drop_last() =~= all.take(i - 1));
        if text::same_text(entry.key.as_str(), key) {
            return Some(entry.peer.as_str().to_owned());
        }
        i -= 1;
    }
    None
}

/// Notes who sent a download, in place of an earlier note.
pub fn store_download_peer(index: &mut Vec<DownloadPeer>, relative: &str, peer: &str)
    ensures
        index_of(final(index)@) == index_of(old(index)@).insert(
            text::replaced(relative@, '\\', '/'),
            peer@,
        ),
        each_once(old(index)@) ==> each_once(final(index)@),
{
    let key = relative_download_key(relative);
    let ghost all = index@;
    let size: usize = index.len();
    let mut rest: Vec<DownloadPeer> = Vec::new();
    let mut n: usize = 0;
    assert(all.take(0) =~= Seq::<DownloadPeer>::empty());
    assert(index_of(rest@) =~= index_of(all.take(0)).remove(key@));
    assert(index@ =~= all.skip(0));
    while n < size
        invariant
            n <= size,
            size == all.len(),
            index@ == all.skip(n as int),
            index_of(rest@) == index_of(all.take(n as int)).remove(key@),
            forall|i: int| 0 <= i < rest@.len() ==> (#[trigger] rest@[i]).key@ != key@,
            forall|i: int|
                0 <= i < rest@.len() ==> keyed(all.take(n as int), (#[trigger] rest@[i]).key@),
            each_once(all) ==> each_once(rest@),
        decreases size - n,
    {
        let ghost before = rest@;
        let entry = index.remove(0);
        assert(index@ =~= all.skip(n + 1));
        let ghost some = all.take(n + 1);
        proof {
            assert(some.drop_last() =~= all.take(n as int));
            assert(some.last() == entry);
            assert forall|i: int| 0 <= i < before.len() implies keyed(
                some,
                (#[trigger] before[i]).key@,
            ) by {
                let j = choose|j: int|
                    0 <= j < n && (#[trigger] all.take(n as int)[j]).key@ == before[i].key@;
                assert(some[j].key@ == before[i].key@);
            }
            if each_once(all) {
                assert forall|i: int| 0 <= i < before.len() implies (#[trigger] before[i]).key@
                    != entry.key@ by {
                    let j = choose|j: int|
                        0 <= j < n && (#[trigger] all.take(n as int)[j]).key@ == before[i].key@;
                    assert(all[j].key@ != all[n as int].key@);
                }
            }
        }
        if !text::same_text(entry.key.as_str(), key.as_str()) {
            rest.push(entry);
            assert(rest@.drop_last() =~= before);
            assert(index_of(rest@) =~= index_of(some).remove(key@));
            assert(some[n as int].key@ == entry.key@);
        } else {
            assert(index_of(rest@) =~= index_of(some).remove(key@));
        }
        n += 1;
    }
    assert(all.take(n as int) =~= all);
    let ghost kept = rest@;
    rest.push(DownloadPeer { key, peer: peer.to_owned() });
    assert(rest@.drop_last() =~= kept);
    assert(index_of(rest@) =~= index_of(all).insert(rest@.last().key@, peer@));
    index.append(&mut rest);
    assert(index@ =~= kept.push(index@.last()));
}

/// The peer noted last for a download is the one found, and other downloads keep theirs.
pub proof fn law_noted_peer_is_found(
    index: Map<Seq<char>, Seq<char>>,
    key: Seq<char>,
    peer: Seq<char>,
    other: Seq<char>,
)
    requires
        other != key,
    ensures
        peer_under(index.insert(key, peer), key) == Some(peer),
        peer_under(index.insert(key, peer), other) == peer_under(index, other),
{
}

// ---------------------------------------------------------------- entries

/// A download as a value of mathematics.
pub struct DownloadForm {
    pub path: PathForm,
    pub name: Seq<char>,
    pub size: u64,
    pub modified: Option<i128>,
    pub kind: DownloadKind,
    pub from_peer: Option<Seq<char>>,
}

impl View for DownloadEntry {
    type V = DownloadForm;

    open spec fn view(&self) -> DownloadForm {
        DownloadForm {
            path: self.path@,
            name: self.name@,
            size: self.size,
            modified: self.modified,
            kind: self.kind,
            from_peer: text::text_in(self.from_peer),
        }
    }
}

/// The downloads of a list.
pub open spec fn forms(v: Seq<DownloadEntry>) -> Seq<DownloadForm> {
    v.map_values(|d: DownloadEntry| d@)
}

/// A file found below the downloads: its path, the same below the downloads where it is there,
/// its size and time of change where they are known.
#[derive(Debug)]
pub struct FoundFile {
    pub path: FilePath,
    pub relative: Option<String>,
    pub size: Option<u64>,
    pub modified: Option<i128>,
}

/// A found file as a value of mathematics.
pub struct FoundForm {
    pub path: PathForm,
    pub relative: Option<Seq<char>>,
    pub size: Option<u64>,
    pub modified: Option<i128>,
}

impl View for FoundFile {
    type V = FoundForm;

    open spec fn view(&self) -> FoundForm {
        FoundForm {
            path: self.path@,
            relative: text::text_in(self.relative),
            size: self.size,
            modified: self.modified,
        }
    }
}

/// The found files of a list.
pub open spec fn found_forms(v: Seq<FoundFile>) -> Seq<FoundForm> {
    v.map_values(|f: FoundFile| f@)
}

/// The download that a found file is.
pub open spec fn download_of(f: FoundForm, from_peer: Option<Seq<char>>) -> DownloadForm {
    DownloadForm {
        path: f.path,
        name: path::name_or_spec(f.path, ""@),
        size: match f.size {
            Some(size) => size,
            None => 0,
        },
        modified: f.modified,
        kind: classified(f.path),
        from_peer,
    }
}

/// The peer that the index names for a found file.
pub open spec fn sender_of(f: FoundForm, index: Map<Seq<char>, Seq<char>>) -> Option<Seq<char>> {
    match f.relative {
        Some(relative) => peer_under(index, text::replaced(relative, '\\', '/')),
        None => None,
    }
}

/// The downloads among found files, in the order in which they were found.
pub open spec fn downloads(found: Seq<FoundForm>, index: Map<Seq<char>, Seq<char>>) -> Seq<
    DownloadForm,
>
    decreases found.len(),
{
    if found.len() == 0 {
        Seq::empty()
    } else {
        let before = downloads(found.drop_last(), index);
        let f = found.last();
        if is_meta(f.path) {
            before
        } else {
            before.push(download_of(f, sender_of(f, index)))
        }
    }
}

/// What downloads are sorted by.
pub open spec fn time_key() -> spec_fn(DownloadForm) -> Option<i128> {
    |d: DownloadForm| d.modified
}

/// Later before earlier, unknown last.
pub open spec fn newer(a: Option<i128>, b: Option<i128>) -> bool {
    match (a, b) {
        (Some(x), Some(y)) => x > y,
        (Some(_), None) => true,
        _ => false,
    }
}

/// Later before earlier, unknown last.
pub open spec fn newest_first() -> spec_fn(Option<i128>, Option<i128>) -> bool {
    |a: Option<i128>, b: Option<i128>| newer(a, b)
}

/// Makes a download of a found file.
pub fn download_entry(found: FoundFile, from_peer: Option<String>) -> (r: DownloadEntry)
    ensures
        r@ == download_of(found@, text::text_in(from_peer)),
{
    let name = found.path.name_or("");
    let kind = classify_download(&found.path);
    let size: u64 = match found.size {
        Some(size) => size,
        None => 0,
    };
    DownloadEntry { path: found.path, name, size, modified: found.modified, kind, from_peer }
}

/// The downloads among found files, the newest first; those of one time as they were found.
pub fn collect_downloads(found: Vec<FoundFile>, index: &Vec<DownloadPeer>) -> (r: Vec<
    DownloadEntry,
>)
    ensures
        order::stably_sorted(
            downloads(found_forms(found@), index_of(index@)),
            forms(r@),
            time_key(),
            newest_first(),
        ),
{
    let mut found = found;
    let ghost all = found_forms(found@);
    let ghost known = index_of(index@);
    let size: usize = found.len();
    let mut r: Vec<DownloadEntry> = Vec::new();
    let mut n: usize = 0;
    assert(all.take(0) =~= Seq::<FoundForm>::empty());
    assert(forms(r@) =~= Seq::<DownloadForm>::empty());
    assert(found_forms(found@) =~= all.skip(0));
    while n < size
        invariant
            n <= size,
            size == all.len(),
            known == index_of(index@),
            found_forms(found@) == all.skip(n as int),
            order::stably_sorted(
                downloads(all.take(n as int), known),
                forms(r@),
                time_key(),
                newest_first(),
            ),
        decreases size - n,
    {
        let ghost left = found@;
        assert(found_forms(left).len() == left.len());
        let file = found.remove(0);
        let ghost f = file@;
        assert(f == found_forms(left)[0]);
        assert(found_forms(found@) =~= found_forms(left).skip(1));
        assert(found_forms(found@) =~= all.skip(n + 1));
        assert(all.take(n + 1).drop_last() =~= all.take(n as int));
        assert(all.take(n + 1).last() == f);
        if !is_download_meta_file(&file.path) {
            let from_peer = match &file.relative {
                Some(relative) => find_peer(
                    index,
                    relative_download_key(relative.as_str()).as_str(),
                ),
                None => None,
            };
            let entry = download_entry(file, from_peer);
            place_download(&mut r, entry, Ghost(downloads(all.take(n as int), known)));
        }
        n += 1;
    }
    assert(all.take(size as int) =~= all);
    r
}

fn is_newer(a: Option<i128>, b: Option<i128>) -> (r: bool)
    ensures
        r == newer(a, b),
{
    match a {
        Some(x) => match b {
            Some(y) => x > y,
            None => true,
        },
        None => false,
    }
}

fn place_download(list: &mut Vec<DownloadEntry>, entry: DownloadEntry, was: Ghost<Seq<DownloadForm>>)
    requires
        order::stably_sorted(was@, forms(old(list)@), time_key(), newest_first()),
    ensures
        order::stably_sorted(was@.push(entry@), forms(final(list)@), time_key(), newest_first()),
{
    let ghost sofar = forms(list@);
    let ghost e = entry@;
    let mut i: usize = 0;
    while i < list.len() && !is_newer(entry.modified, list[i].modified)
        invariant
            i <= list@.len(),
            sofar == forms(list@),
            e == entry@,
            forall|k: int| 0 <= k < i ==> !newer(e.modified, (#[trigger] sofar[k]).modified),
        decreases list@.len() - i,
    {
        assert(sofar[i as int] == list@[i as int]@);
        i += 1;
    }
    proof {
        if i < list@.len() {
            assert(sofar[i as int] == list@[i as int]@);
        }
        order::lemma_placed(was@, sofar, e, i as int, time_key(), newest_first());
    }
    list.insert(i, entry);
    assert(forms(list@) =~= sofar.insert(i as int, e));
}

// ---------------------------------------------------------------- filter

/// What the filter of downloads goes by.
pub struct HistoryView {
    pub filter: HistoryFilter,
    pub query_lower: Seq<char>,
    pub peer: Option<Seq<char>>,
    pub now: i128,
}

/// The time from which on a download counts as recent.
pub open spec fn recent_cutoff(now: i128) -> int {
    if now - state::RECENT_NANOS >= i128::MIN {
        now - state::RECENT_NANOS
    } else {
        now as int
    }
}

/// Whether a download is shown.
pub open spec fn is_shown(d: DownloadForm, v: HistoryView) -> bool {
    &&& v.query_lower.len() == 0 || text::occurs(text::lowered(d.name), v.query_lower)
    &&& match v.filter {
        HistoryFilter::All => true,
        HistoryFilter::FromPeer => v.peer is Some && d.from_peer == v.peer,
        HistoryFilter::Recent => d.modified matches Some(m) && m >= recent_cutoff(v.now),
        HistoryFilter::Large => d.size >= state::LARGE_BYTES,
        HistoryFilter::Media => d.kind is Media,
        HistoryFilter::Docs => d.kind is Document,
    }
}

/// The places of the downloads that are shown.
pub open spec fn shown(list: Seq<DownloadForm>, v: HistoryView) -> Seq<int>
    decreases list.len(),
{
    if list.len() == 0 {
        Seq::empty()
    } else if is_shown(list.last(), v) {
        shown(list.drop_last(), v).push(list.len() - 1)
    } else {
        shown(list.drop_last(), v)
    }
}

fn matches_filter(
    d: &DownloadEntry,
    filter: HistoryFilter,
    query_lower: &str,
    peer: &Option<String>,
    now: i128,
) -> (r: bool)
    ensures
        r == is_shown(
            d@,
            HistoryView { filter, query_lower: query_lower@, peer: text::text_in(*peer), now },
        ),
{
    if !query_lower.is_empty() && !text::contains(
        text::to_lower(d.name.as_str()).as_str(),
        query_lower,
    ) {
        return false;
    }
    match filter {
        HistoryFilter::All => true,
        HistoryFilter::FromPeer => match peer {
            Some(key) => match &d.from_peer {
                Some(from) => text::same_text(from.as_str(), key.as_str()),
                None => false,
            },
            None => false,
        },
        HistoryFilter::Recent => match d.modified {
            Some(m) => {
                let cutoff: i128 = if now >= i128::MIN + state::RECENT_NANOS {
                    now - state::RECENT_NANOS
                } else {
                    now
                };
                m >= cutoff
            },
            None => false,
        },
        HistoryFilter::Large => d.size >= state::LARGE_BYTES,
        HistoryFilter::Media => d.kind == DownloadKind::Media,
        HistoryFilter::Docs => d.kind == DownloadKind::Document,
    }
}

/// The places of the downloads that are shown.
pub fn shown_downloads(
    list: &Vec<DownloadEntry>,
    filter: HistoryFilter,
    query_lower: &str,
    peer: &Option<String>,
    now: i128,
) -> (r: Vec<usize>)
    ensures
        r@.map_values(|i: usize| i as int) == shown(
            forms(list@),
            HistoryView { filter, query_lower: query_lower@, peer: text::text_in(*peer), now },
        ),
        r@.len() <= list@.len(),
        forall|k: int| 0 <= k < r@.len() ==> #[trigger] r@[k] < list@.len(),
{
    let ghost v = HistoryView {
        filter,
        query_lower: query_lower@,
        peer: text::text_in(*peer),
        now,
    };
    let ghost all = forms(list@);
    let mut r: Vec<usize> = Vec::new();
    let mut i: usize = 0;
    assert(all.take(0) =~= Seq::<DownloadForm>::empty());
    assert(r@.map_values(|i: usize| i as int) =~= Seq::<int>::empty());
    while i < list.len()
        invariant
            i <= list@.len(),
            all == forms(list@),
            v == (HistoryView {
                filter,
                query_lower: query_lower@,
                peer: text::text_in(*peer),
                now,
            }),
            r@.len() <= i,
            forall|k: int| 0 <= k < r@.len() ==> #[trigger] r@[k] < i,
            r@.map_values(|i: usize| i as int) == shown(all.take(i as int), v),
        decreases list@.len() - i,
    {
        assert(all.take(i + 1).drop_last() =~= all.take(i as int));
        assert(all.take(i + 1).last() == list@[i as int]@);
        if matches_filter(&list[i], filter, query_lower, peer, now) {
            let ghost before = r@;
            r.push(i);
            assert(r@.map_values(|i: usize| i as int) =~= before.map_values(
                |i: usize| i as int,
            ).push(i as int));
        }
        i += 1;
    }
    assert(all.take(i as int) =~= all);
    r
}

// ---------------------------------------------------------------- laws

/// The last dot is the one behind which there is no other.
pub proof fn law_last_dot_is_last(b: Seq<u8>, i: int)
    ensures
        0 <= i < b.len() && b[i] == 46 && (forall|k: int| i < k < b.len() ==> #[trigger] b[k] != 46)
            ==> last_dot(b) == i,
        (forall|k: int| 0 <= k < b.len() ==> #[trigger] b[k] != 46) ==> last_dot(b) == -1,
    decreases b.len(),
{
    if b.len() > 0 {
        let less = b.drop_last();
        law_last_dot_is_last(less, i);
        assert forall|k: int| 0 <= k < less.len() implies #[trigger] less[k] == b[k] by {}
        assert(b.last() == b[b.len() - 1]);
    }
}

/// The extension of a file is what stands behind the last dot of its name, where that is text and the
/// dot is not the first character; a path without a name has none.
pub proof fn law_extension_stands_behind_the_last_dot(p: PathForm, i: int)
    ensures
        p.parts.len() == 0 || p.parts[p.parts.len() - 1].rank != 4 ==> extension_of(p) is None,
        p.parts.len() > 0 && p.parts[p.parts.len() - 1].rank == 4 ==> {
            let name = p.parts[p.parts.len() - 1].bytes;
            let dot = 0 <= i < name.len() && name[i] == 46 && (forall|k: int|
                i < k < name.len() ==> #[trigger] name[k] != 46);
            &&& dot && i > 0 && vstd::utf8::valid_utf8(name.skip(i + 1)) ==> extension_of(p)
                == Some(vstd::utf8::decode_utf8(name.skip(i + 1)))
            &&& dot && i > 0 && !vstd::utf8::valid_utf8(name.skip(i
                + 1)) ==> extension_of(p) is None
            &&& dot && i == 0 ==> extension_of(p) is None
            &&& (forall|k: int| 0 <= k < name.len() ==> #[trigger] name[k] != 46) ==> extension_of(
                p,
            ) is None
        },
{
    if p.parts.len() > 0 {
        law_last_dot_is_last(p.parts.last().bytes, i);
    }
}

/// What a file is goes by its extension in lower case; of any other extension, or without one, it is
/// of another sort.
pub proof fn law_sort_goes_by_the_extension(p: PathForm)
    ensures
        ({
            let e = text::lowered(extension_of(p)->0);
            let known = extension_of(p) is Some;
            let media = e == "mp3"@ || e == "flac"@ || e == "wav"@ || e == "mp4"@
                || e == "mkv"@ || e == "mov"@ || e == "avi"@;
            let document = e == "pdf"@ || e == "doc"@ || e == "docx"@ || e == "txt"@
                || e == "md"@ || e == "ppt"@ || e == "pptx"@;
            let archive = e == "zip"@ || e == "tar"@ || e == "gz"@ || e == "xz"@ || e == "7z"@
                || e == "rar"@;
            let binary = e == "exe"@ || e == "msi"@ || e == "apk"@ || e == "bin"@
                || e == "appimage"@;
            &&& known && media ==> classified(p) is Media
            &&& known && document ==> classified(p) is Document
            &&& known && archive ==> classified(p) is Archive
            &&& known && binary ==> classified(p) is Binary
            &&& known && !media && !document && !archive && !binary ==> classified(p) is Other
            &&& !known ==> classified(p) is Other
        }),
{
    lemma_sorts_differ();
    reveal_strlit("");
    assert(text::lowered(""@).len() == 0);
}

#[verifier::rlimit(50)]
proof fn lemma_sorts_differ()
    ensures
        forall|e: Seq<char>|
            #![trigger kind_of(e)]
            ({
                let media = e == "mp3"@ || e == "flac"@ || e == "wav"@ || e == "mp4"@
                    || e == "mkv"@ || e == "mov"@ || e == "avi"@;
                let document = e == "pdf"@ || e == "doc"@ || e == "docx"@ || e == "txt"@
                    || e == "md"@ || e == "ppt"@ || e == "pptx"@;
                let archive = e == "zip"@ || e == "tar"@ || e == "gz"@ || e == "xz"@
                    || e == "7z"@ || e == "rar"@;
                let binary = e == "exe"@ || e == "msi"@ || e == "apk"@ || e == "bin"@
                    || e == "appimage"@;
                &&& media ==> kind_of(e) is Media
                &&& document ==> kind_of(e) is Document
                &&& archive ==> kind_of(e) is Archive
                &&& binary ==> kind_of(e) is Binary
                &&& !media && !document && !archive && !binary ==> kind_of(e) is Other
                &&& e.len() == 0 ==> kind_of(e) is Other
            }),
{
    reveal_strlit("mp3");
    assert("mp3"@.len() == 3 && "mp3"@[0] == 'm' && "mp3"@[1] == 'p' && "mp3"@[2] == '3');
    reveal_strlit("flac");
    assert("flac"@.len() == 4 && "flac"@[0] == 'f' && "flac"@[1] == 'l' && "flac"@[2] == 'a');
    reveal_strlit("wav");
    assert("wav"@.len() == 3 && "wav"@[0] == 'w' && "wav"@[1] == 'a' && "wav"@[2] == 'v');
    reveal_strlit("mp4");
    assert("mp4"@.len() == 3 && "mp4"@[0] == 'm' && "mp4"@[1] == 'p' && "mp4"@[2] == '4');
    reveal_strlit("mkv");
    assert("mkv"@.len() == 3 && "mkv"@[0] == 'm' && "mkv"@[1] == 'k' && "mkv"@[2] == 'v');
    reveal_strlit("mov");
    assert("mov"@.len() == 3 && "mov"@[0] == 'm' && "mov"@[1] == 'o' && "mov"@[2] == 'v');
    reveal_strlit("avi");
    assert("avi"@.len() == 3 && "avi"@[0] == 'a' && "avi"@[1] == 'v' && "avi"@[2] == 'i');
    reveal_strlit("pdf");
    assert("pdf"@.len() == 3 && "pdf"@[0] == 'p' && "pdf"@[1] == 'd' && "pdf"@[2] == 'f');
    reveal_strlit("doc");
    assert("doc"@.len() == 3 && "doc"@[0] == 'd' && "doc"@[1] == 'o' && "doc"@[2] == 'c');
    reveal_strlit("docx");
    assert("docx"@.len() == 4 && "docx"@[0] == 'd' && "docx"@[1] == 'o' && "docx"@[2] == 'c');
    reveal_strlit("txt");
    assert("txt"@.len() == 3 && "txt"@[0] == 't' && "txt"@[1] == 'x' && "txt"@[2] == 't');
    reveal_strlit("md");
    assert("md"@.len() == 2 && "md"@[0] == 'm' && "md"@[1] == 'd');
    reveal_strlit("ppt");
    assert("ppt"@.len() == 3 && "ppt"@[0] == 'p' && "ppt"@[1] == 'p' && "ppt"@[2] == 't');
    reveal_strlit("pptx");
    assert("pptx"@.len() == 4 && "pptx"@[0] == 'p' && "pptx"@[1] == 'p' && "pptx"@[2] == 't');
    reveal_strlit("zip");
    assert("zip"@.len() == 3 && "zip"@[0] == 'z' && "zip"@[1] == 'i' && "zip"@[2] == 'p');
    reveal_strlit("tar");
    assert("tar"@.len() == 3 && "tar"@[0] == 't' && "tar"@[1] == 'a' && "tar"@[2] == 'r');
    reveal_strlit("gz");
    assert("gz"@.len() == 2 && "gz"@[0] == 'g' && "gz"@[1] == 'z');
    reveal_strlit("xz");
    assert("xz"@.len() == 2 && "xz"@[0] == 'x' && "xz"@[1] == 'z');
    reveal_strlit("7z");
    assert("7z"@.len() == 2 && "7z"@[0] == '7' && "7z"@[1] == 'z');
    reveal_strlit("rar");
    assert("rar"@.len() == 3 && "rar"@[0] == 'r' && "rar"@[1] == 'a' && "rar"@[2] == 'r');
    reveal_strlit("exe");
    assert("exe"@.len() == 3 && "exe"@[0] == 'e' && "exe"@[1] == 'x' && "exe"@[2] == 'e');
    reveal_strlit("msi");
    assert("msi"@.len() == 3 && "msi"@[0] == 'm' && "msi"@[1] == 's' && "msi"@[2] == 'i');
    reveal_strlit("apk");
    assert("apk"@.len() == 3 && "apk"@[0] == 'a' && "apk"@[1] == 'p' && "apk"@[2] == 'k');
    reveal_strlit("bin");
    assert("bin"@.len() == 3 && "bin"@[0] == 'b' && "bin"@[1] == 'i' && "bin"@[2] == 'n');
    reveal_strlit("appimage");
    assert("appimage"@.len() == 8 && "appimage"@[0] == 'a' && "appimage"@[1] == 'p'
        && "appimage"@[2] == 'p');
}

/// The file of the senders is not listed, nor any whose name begins like its name.
pub proof fn law_senders_file_is_left_out(p: PathForm, name: Seq<char>)
    ensures
        path::name_of(p) == Some(name) ==> (is_meta(p) <==> text::begins(
            name,
            ".download_meta.json"@,
        )),
        path::name_of(p) is None ==> !is_meta(p),
{
}

/// Who sent a file is what was noted last under its name; where nothing was noted, it is not known.
pub proof fn law_last_note_counts(v: Seq<DownloadPeer>, key: Seq<char>, i: int)
    ensures
        0 <= i < v.len() && v[i].key@ == key && (forall|k: int|
            i < k < v.len() ==> (#[trigger] v[k]).key@ != key) ==> peer_under(index_of(v), key)
            == Some(v[i].peer@),
        (forall|k: int| 0 <= k < v.len() ==> (#[trigger] v[k]).key@ != key) ==> peer_under(
            index_of(v),
            key,
        ) is None,
    decreases v.len(),
{
    if v.len() > 0 {
        let less = v.drop_last();
        law_last_note_counts(less, key, i);
        assert forall|k: int| 0 <= k < less.len() implies #[trigger] less[k] == v[k] by {}
        assert(v.last() == v[v.len() - 1]);
    }
}

/// A file is listed by its path and the name at its end, with its size, or none where it is not known,
/// its time and its sort.
pub proof fn law_files_are_listed_as_found(f: FoundForm, from: Option<Seq<char>>)
    ensures
        ({
            let d = download_of(f, from);
            &&& d.path == f.path
            &&& path::name_of(f.path) is Some ==> d.name == path::name_of(f.path)->0
            &&& path::name_of(f.path) is None ==> d.name == ""@
            &&& f.size is Some ==> d.size == f.size->0
            &&& f.size is None ==> d.size == 0
            &&& d.modified == f.modified
            &&& d.kind == classified(f.path)
            &&& d.from_peer == from
        }),
{
}

/// The sender of a file is looked up by its place below the directory, with slashes between its
/// parts; a file that lies elsewhere has none.
pub proof fn law_sender_is_looked_up_by_place(f: FoundForm, index: Map<Seq<char>, Seq<char>>)
    ensures
        f.relative is Some && index.contains_key(text::replaced(f.relative->0, '\\', '/'))
            ==> sender_of(f, index) == Some(index[text::replaced(f.relative->0, '\\', '/')]),
        f.relative is Some && !index.contains_key(text::replaced(f.relative->0, '\\', '/'))
            ==> sender_of(f, index) is None,
        f.relative is None ==> sender_of(f, index) is None,
{
}

/// Every file that was found is listed but that of the senders, in the order in which they were found.
pub proof fn law_every_file_is_listed(found: Seq<FoundForm>, index: Map<Seq<char>, Seq<char>>)
    ensures
        downloads(found, index) == found.filter(|f: FoundForm| !is_meta(f.path)).map_values(
            |f: FoundForm| download_of(f, sender_of(f, index)),
        ),
    decreases found.len(),
{
    let p = |f: FoundForm| !is_meta(f.path);
    let g = |f: FoundForm| download_of(f, sender_of(f, index));
    reveal(Seq::filter);
    if found.len() > 0 {
        let less = found.drop_last();
        law_every_file_is_listed(less, index);
        if p(found.last()) {
            assert(less.filter(p).push(found.last()).map_values(g) =~= less.filter(p).map_values(
                g,
            ).push(g(found.last())));
        }
    } else {
        assert(found.filter(p).map_values(g) =~= Seq::empty());
    }
}

/// The newer of two files goes first; one whose time is not known goes behind those whose time is.
pub proof fn law_newer_files_go_first(x: i128, y: i128)
    ensures
        newer(Some(x), Some(y)) <==> x > y,
        newer(Some(x), None),
        !newer(None, Some(y)),
        !newer(None, None),
{
}

/// A file is shown where its name in lower case holds the text looked for, if any, and where it is
/// what the filter asks for: from the peer, changed in the last seven days, of fifty million bytes or
/// more, or of a sort.
pub proof fn law_filters_show_what_they_say(d: DownloadForm, v: HistoryView)
    ensures
        ({
            let since = if v.now >= i128::MIN + 604_800_000_000_000 {
                v.now - 604_800_000_000_000
            } else {
                v.now as int
            };
            let named = v.query_lower.len() == 0 || text::occurs(
                text::lowered(d.name),
                v.query_lower,
            );
            &&& !named ==> !is_shown(d, v)
            &&& named && v.filter is All ==> is_shown(d, v)
            &&& named && v.filter is FromPeer ==> (is_shown(d, v) <==> v.peer is Some && d.from_peer
                is Some && d.from_peer->0 == v.peer->0)
            &&& named && v.filter is Recent ==> (is_shown(d, v) <==> d.modified is Some
                && d.modified->0 >= since)
            &&& named && v.filter is Large ==> (is_shown(d, v) <==> d.size >= 50_000_000)
            &&& named && v.filter is Media ==> (is_shown(d, v) <==> d.kind is Media)
            &&& named && v.filter is Docs ==> (is_shown(d, v) <==> d.kind is Document)
        }),
{
}

/// The files that are shown are all of those that the filter shows, in the order of the list.
pub proof fn law_all_that_the_filter_shows(list: Seq<DownloadForm>, v: HistoryView, k: int)
    ensures
        shown(list, v).contains(k) <==> 0 <= k < list.len() && is_shown(list[k], v),
        forall|a: int, b: int|
            0 <= a < b < shown(list, v).len() ==> (#[trigger] shown(list, v)[a]) < (
            #[trigger] shown(list, v)[b]),
{
    lemma_history_shown(list, v);
}

proof fn lemma_history_shown(list: Seq<DownloadForm>, v: HistoryView)
    ensures
        forall|k: int| #[trigger]
            shown(list, v).contains(k) ==> 0 <= k < list.len() && is_shown(list[k], v),
        forall|k: int| 0 <= k < list.len()
            && is_shown(list[k], v) ==> #[trigger] shown(list, v).contains(k),
        forall|a: int, b: int|
            0 <= a < b < shown(list, v).len() ==> (#[trigger] shown(list, v)[a]) < (#[trigger] shown(list, v)[b]),
    decreases list.len(),
{
    let all = shown(list, v);
    if list.len() > 0 {
        let less = list.drop_last();
        lemma_history_shown(less, v);
        let before = shown(less, v);
        assert forall|k: int| #[trigger] all.contains(k) implies 0 <= k < list.len()
            && is_shown(list[k], v) by {
            let a = choose|a: int| 0 <= a < all.len() && all[a] == k;
            if a < before.len() {
                assert(before[a] == k);
                assert(before.contains(k));
                assert(less[k] == list[k]);
            }
        }
        assert forall|k: int| 0 <= k < list.len()
            && is_shown(list[k], v) implies #[trigger] all.contains(
            k,
        ) by {
            if k < less.len() {
                assert(less[k] == list[k]);
                assert(before.contains(k));
                let a = choose|a: int| 0 <= a < before.len() && before[a] == k;
                assert(all[a] == k);
            } else {
                assert(all[all.len() - 1] == k);
            }
        }
        assert forall|a: int, b: int| 0 <= a < b < all.len() implies (#[trigger] all[a]) < (
        #[trigger] all[b]) by {
            assert(all[a] == before[a]);
            assert(before.contains(before[a]));
            if b < before.len() {
                assert(all[b] == before[b]);
            }
        }
    }
}

} // verus!
