//! Names of received files.

use vstd::prelude::*;

use crate::text;

verus! {

/// The last attempt at a free name.
pub const MAX_ATTEMPTS: u32 = 9999;

/// The last of the pieces of a path that is neither empty nor the current directory; none where
/// there is none, or where it is the parent directory.
pub open spec fn last_part(parts: Seq<Seq<char>>) -> Option<Seq<char>>
    decreases parts.len(),
{
    if parts.len() == 0 {
        None
    } else if parts.last().len() == 0 || parts.last() == "."@ {
        last_part(parts.drop_last())
    } else if parts.last() == ".."@ {
        None
    } else {
        Some(parts.last())
    }
}

/// The file name at the end of a path whose components `/` separates.
pub open spec fn last_of(name: Seq<char>) -> Option<Seq<char>> {
    last_part(text::pieces(name, '/'))
}

/// A text that is the same path on every machine: it holds no `\`, which separates components
/// on some, no drive, and does not begin as a share.
pub open spec fn portable(name: Seq<char>) -> bool {
    &&& !name.contains('\\')
    &&& !name.contains(':')
    &&& !text::begins(name, "//"@)
}

/// A text with `/` in place of each `\`.
pub open spec fn slashed(name: Seq<char>) -> Seq<char> {
    name.map_values(
        |c: char|
            if c == '\\' {
                '/'
            } else {
                c
            },
    )
}

/// A text that names no drive and does not begin with two separators of any machine, so that
/// machines differ only in whether `\` separates components.
pub open spec fn bare(name: Seq<char>) -> bool {
    &&& !name.contains(':')
    &&& !text::begins(slashed(name), "//"@)
}

/// A text that may begin with a verbatim prefix, behind which `/` separates nothing.
pub open spec fn verbatim(name: Seq<char>) -> bool {
    text::begins(name, "\\\\?\\"@)
}

/// A text that is a file name: not empty, and neither of the two directory names.
pub open spec fn names_a_file(name: Seq<char>) -> bool {
    &&& name.len() > 0
    &&& name != "."@
    &&& name != ".."@
}

/// `Path::file_name` of `std`, as text: the last component of a path where it is a file name.
/// The contract claims that it is a part of the path's text and a file name; that it holds no
/// `/`, which separates components on every machine but behind the verbatim prefix of Windows;
/// and, of a path without drive or share, which component it is: the last one where `/`
/// separates, or the last one where `\` does so too. Which of the two, and what a drive or a
/// share means, depends on the machine and is not stated.
#[verifier::external_body]
fn last_component(name: &str) -> (r: Option<String>)
    ensures
        bare(name@) ==> text::text_in(r) == last_of(name@) || text::text_in(r) == last_of(
            slashed(name@),
        ),
        match r {
            Some(last) => {
                &&& text::occurs(name@, last@)
                &&& names_a_file(last@)
                &&& !verbatim(name@) ==> !last@.contains('/')
            },
            None => true,
        },
{
    std::path::Path::new(name).file_name().and_then(|v| v.to_str()).map(|v| v.to_string())
}

/// A file name as found in a path, or a stock name where none was found.
pub open spec fn safe_name_spec(found: Option<Seq<char>>) -> Seq<char> {
    match found {
        Some(name) => if name.len() > 0 {
            name
        } else {
            "file.bin"@
        },
        None => "file.bin"@,
    }
}

/// A file name as found in a path, or a stock name where none was found.
pub fn safe_name(found: Option<String>) -> (r: String)
    ensures
        r@ == safe_name_spec(text::text_in(found)),
        r@.len() > 0,
{
    proof {
        reveal_strlit("file.bin");
    }
    match found {
        Some(name) => if name.as_str().is_empty() {
            "file.bin".to_owned()
        } else {
            name
        },
        None => "file.bin".to_owned(),
    }
}

/// Whether a file with this name may be kept under another: its last component, or a stock name;
/// a file name in any case. Where all machines agree on the components, there is one such name.
pub open spec fn kept_as(name: Seq<char>, kept: Seq<char>) -> bool {
    &&& names_a_file(kept)
    &&& !verbatim(name) ==> !kept.contains('/')
    &&& text::occurs(name, kept) || kept == "file.bin"@
    &&& portable(name) ==> kept == safe_name_spec(last_of(name))
    &&& bare(name) ==> kept == safe_name_spec(last_of(name)) || kept == safe_name_spec(
        last_of(slashed(name)),
    )
}

/// The file name that a peer's name for a file is kept under: its last component, or a stock
/// name.
pub fn sanitize_file_name(name: &str) -> (r: String)
    ensures
        kept_as(name@, r@),
{
    proof {
        reveal_strlit("file.bin");
        reveal_strlit(".");
        reveal_strlit("..");
        lemma_slashed_already(name@);
    }
    let found = last_component(name);
    safe_name(found)
}

proof fn lemma_slashed_already(name: Seq<char>)
    ensures
        !name.contains('\\') ==> slashed(name) == name,
{
    if !name.contains('\\') {
        assert forall|i: int| 0 <= i < name.len() implies #[trigger] name[i] != '\\' by {
            assert(name.contains(name[i]));
        }
        assert(slashed(name) =~= name);
    }
}

/// Whether a text is an ordinary file name: it names a file, and holds no separator and no drive.
pub open spec fn plain(name: Seq<char>) -> bool {
    &&& names_a_file(name)
    &&& !name.contains('/')
    &&& !name.contains('\\')
    &&& !name.contains(':')
}

/// A plain name is kept as it is.
pub proof fn law_plain_name_stays(name: Seq<char>, kept: Seq<char>)
    requires
        plain(name),
        kept_as(name, kept),
    ensures
        kept == name,
{
    text::lemma_one_piece(name, '/');
    lemma_no_share(name);
    assert(text::pieces(name, '/').last() == name);
}

/// Where all machines agree on a name, the name that a file is kept under is plain, and is kept
/// as it is from then on.
pub proof fn law_kept_name_stays(name: Seq<char>, kept: Seq<char>, again: Seq<char>)
    requires
        portable(name),
        kept_as(name, kept),
        kept_as(kept, again),
    ensures
        plain(kept),
        again == kept,
{
    reveal_strlit("file.bin");
    reveal_strlit(".");
    reveal_strlit("..");
    text::lemma_pieces_hold(name, '/');
    lemma_last_part(text::pieces(name, '/'));
    if let Some(last) = last_of(name) {
        let parts = text::pieces(name, '/');
        let i = choose|i: int| 0 <= i < parts.len() && #[trigger] parts[i] == last;
        assert(text::within(parts[i], name, '/'));
        assert forall|c: char| #[trigger] last.contains(c) implies name.contains(c) && c != '/' by {
            let k = choose|k: int| 0 <= k < last.len() && last[k] == c;
            assert(name.contains(parts[i][k]) && parts[i][k] != '/');
        }
    }
    law_plain_name_stays(kept, again);
}

proof fn lemma_last_part(parts: Seq<Seq<char>>)
    ensures
        last_part(parts) matches Some(last) ==> names_a_file(last) && exists|i: int|
            0 <= i < parts.len() && #[trigger] parts[i] == last,
    decreases parts.len(),
{
    if parts.len() > 0 {
        if parts.last().len() == 0 || parts.last() == "."@ {
            lemma_last_part(parts.drop_last());
            if let Some(last) = last_part(parts) {
                let less = parts.drop_last();
                let i = choose|i: int| 0 <= i < less.len() && #[trigger] less[i] == last;
                assert(parts[i] == last);
            }
        } else {
            assert(parts[parts.len() - 1] == parts.last());
        }
    }
}

proof fn lemma_no_share(name: Seq<char>)
    requires
        !name.contains('/'),
    ensures
        !text::begins(name, "//"@),
{
    reveal_strlit("//");
    if text::begins(name, "//"@) {
        assert(name.subrange(0, 2)[0] == '/');
        assert(name[0] == '/');
    }
}

// ---------------------------------------------------------------- free names

/// The place of the last full stop; -1 where there is none.
pub open spec fn last_dot(s: Seq<char>) -> int
    decreases s.len(),
{
    if s.len() == 0 {
        -1
    } else if s.last() == '.' {
        s.len() - 1
    } else {
        last_dot(s.drop_last())
    }
}

/// The part of a file name before its extension.
pub open spec fn stem(name: Seq<char>) -> Seq<char> {
    if name.len() == 0 {
        "file"@
    } else if last_dot(name) > 0 {
        name.take(last_dot(name))
    } else {
        name
    }
}

/// The extension of a file name, with its full stop; nothing where there is none. A name that
/// begins with its only full stop has none.
pub open spec fn dotted_extension(name: Seq<char>) -> Seq<char> {
    if last_dot(name) > 0 {
        name.skip(last_dot(name))
    } else {
        Seq::empty()
    }
}

/// The name of the given attempt: first the name itself, then with a number before its
/// extension.
pub open spec fn attempt_name(name: Seq<char>, attempt: u32) -> Seq<char> {
    if attempt <= 1 {
        name
    } else {
        stem(name) + " ("@ + text::decimal(attempt as nat) + ")"@ + dotted_extension(name)
    }
}

/// The name of the given attempt.
pub fn download_name(name: &str, attempt: u32) -> (r: String)
    ensures
        r@ == attempt_name(name@, attempt),
{
    if attempt <= 1 {
        return name.to_owned();
    }
    let v = text::chars_of(name);
    let size: usize = v.len();
    let mut i: usize = size;
    assert(v@.take(i as int) =~= v@);
    while i > 0 && v[i - 1] != '.'
        invariant
            i <= size,
            size == v@.len(),
            v@ == name@,
            last_dot(v@) == last_dot(v@.take(i as int)),
        decreases i,
    {
        assert(v@.take(i as int).drop_last() =~= v@.take(i - 1));
        i -= 1;
    }
    let dot: usize = if i > 1 {
        i - 1
    } else {
        size
    };
    let mut r = if size == 0 {
        "file".to_owned()
    } else {
        text::string_of(&v, 0, dot)
    };
    assert(r@ =~= stem(name@));
    r.append(" (");
    r.append(text::number_text(attempt as u64).as_str());
    r.append(")");
    let ext = text::string_of(&v, dot, size);
    assert(ext@ =~= dotted_extension(name@));
    r.append(ext.as_str());
    r
}

/// The attempt that follows one whose name is taken or free; none where this one is used. The
/// last attempt is used though it be taken.
pub open spec fn attempt_after(attempt: u32, taken: bool) -> Option<u32> {
    if taken && attempt < MAX_ATTEMPTS {
        Some((attempt + 1) as u32)
    } else {
        None
    }
}

/// The attempt that follows one whose name is taken or free.
pub fn next_attempt(attempt: u32, taken: bool) -> (r: Option<u32>)
    ensures
        r == attempt_after(attempt, taken),
{
    if taken && attempt < MAX_ATTEMPTS {
        Some(attempt + 1)
    } else {
        None
    }
}

/// The attempt that is used in the end, from one on.
pub open spec fn settled(taken: spec_fn(u32) -> bool, attempt: u32) -> u32
    decreases MAX_ATTEMPTS - attempt,
{
    match attempt_after(attempt, taken(attempt)) {
        Some(next) => settled(taken, next),
        None => attempt,
    }
}

/// The attempt that is used is the first whose name is free, or the last there is.
pub proof fn law_first_free_attempt(taken: spec_fn(u32) -> bool)
    ensures
        1 <= settled(taken, 1) <= MAX_ATTEMPTS,
        forall|k: u32| 1 <= k < settled(taken, 1) ==> #[trigger] taken(k),
        !taken(settled(taken, 1)) || settled(taken, 1) == MAX_ATTEMPTS,
{
    lemma_settled(taken, 1);
}

proof fn lemma_settled(taken: spec_fn(u32) -> bool, attempt: u32)
    requires
        1 <= attempt <= MAX_ATTEMPTS,
    ensures
        attempt <= settled(taken, attempt) <= MAX_ATTEMPTS,
        forall|k: u32| attempt <= k < settled(taken, attempt) ==> #[trigger] taken(k),
        !taken(settled(taken, attempt)) || settled(taken, attempt) == MAX_ATTEMPTS,
    decreases MAX_ATTEMPTS - attempt,
{
    if taken(attempt) && attempt < MAX_ATTEMPTS {
        lemma_settled(taken, (attempt + 1) as u32);
    }
}

/// Different attempts after the first give different names.
pub proof fn law_attempts_differ(name: Seq<char>, a: u32, b: u32)
    requires
        2 <= a,
        2 <= b,
        a != b,
    ensures
        attempt_name(name, a) != attempt_name(name, b),
{
    let front = stem(name) + " ("@;
    let back = ")"@ + dotted_extension(name);
    let da = text::decimal(a as nat);
    let db = text::decimal(b as nat);
    assert(attempt_name(name, a) =~= front + da + back);
    assert(attempt_name(name, b) =~= front + db + back);
    if attempt_name(name, a) == attempt_name(name, b) {
        assert(da.len() == db.len());
        let whole = front + da + back;
        assert(da =~= whole.subrange(front.len() as int, (front.len() + da.len()) as int));
        assert(db =~= (front + db + back).subrange(
            front.len() as int,
            (front.len() + db.len()) as int,
        ));
        text::lemma_decimal_value(a as nat);
        text::lemma_decimal_value(b as nat);
    }
}

/// No attempt leaves the directory: where a name holds no separator, none of its attempts does.
pub proof fn law_attempts_stay(name: Seq<char>, attempt: u32)
    requires
        !name.contains('/'),
    ensures
        !attempt_name(name, attempt).contains('/'),
{
    reveal_strlit("file");
    reveal_strlit(" (");
    reveal_strlit(")");
    text::lemma_decimal_digits(attempt as nat);
    let whole = attempt_name(name, attempt);
    if whole.contains('/') {
        let i = choose|i: int| 0 <= i < whole.len() && whole[i] == '/';
        let a = stem(name);
        let b = a + " ("@;
        let c = b + text::decimal(attempt as nat);
        let d = c + ")"@;
        lemma_last_dot(name);
        if attempt <= 1 {
        } else if i < a.len() {
            assert(whole[i] == a[i]);
            if name.len() > 0 {
                assert(whole[i] == name[i]);
            }
        } else if i < b.len() {
            assert(whole[i] == " ("@[i - a.len()]);
        } else if i < c.len() {
            assert(whole[i] == text::decimal(attempt as nat)[i - b.len()]);
        } else if i < d.len() {
            assert(whole[i] == ")"@[i - c.len()]);
        } else {
            assert(whole[i] == dotted_extension(name)[i - d.len()]);
            assert(whole[i] == name[last_dot(name) + i - d.len()]);
        }
    }
}

proof fn lemma_last_dot(s: Seq<char>)
    ensures
        -1 <= last_dot(s) < s.len(),
    decreases s.len(),
{
    if s.len() > 0 {
        lemma_last_dot(s.drop_last());
    }
}

/// Whether a name stays in the directory that it is joined to.
pub open spec fn stays(name: Seq<char>) -> bool {
    &&& names_a_file(name)
    &&& !name.contains('/')
}

/// No received name leaves the directory: whatever a peer calls a file, each attempt at a name
/// for it stays in the directory, and so does the name until the file is complete.
pub proof fn law_received_names_stay(name: Seq<char>, kept: Seq<char>, attempt: u32)
    requires
        !verbatim(name),
        kept_as(name, kept),
    ensures
        stays(attempt_name(kept, attempt)),
        stays(attempt_name(kept, attempt) + ".part"@),
{
    reveal_strlit(".");
    reveal_strlit("..");
    reveal_strlit(" (");
    reveal_strlit(")");
    reveal_strlit(".part");
    law_attempts_stay(kept, attempt);
    let whole = attempt_name(kept, attempt);
    if attempt > 1 {
        lemma_last_dot(kept);
        let front = stem(kept) + " ("@;
        let rest = text::decimal(attempt as nat) + ")"@ + dotted_extension(kept);
        assert(whole =~= front + rest);
        assert(stem(kept).len() > 0);
        assert(rest.len() >= 1);
        assert(whole.len() > 2);
    }
    let part = whole + ".part"@;
    if part.contains('/') {
        let i = choose|i: int| 0 <= i < part.len() && part[i] == '/';
        if i < whole.len() {
            assert(whole[i] == '/');
        } else {
            assert(part[i] == ".part"@[i - whole.len()]);
        }
    }
}

/// The name that a file is kept under until it is complete.
pub fn part_name(name: &str) -> (r: String)
    ensures
        r@ == name@ + ".part"@,
{
    text::joined(name, ".part")
}

/// Where a transfer resumes: behind what is there of the file, never beyond its size.
pub open spec fn resume_at(present: Option<u64>, size: u64) -> u64 {
    match present {
        Some(len) => if len < size {
            len
        } else {
            size
        },
        None => 0,
    }
}

/// Where a transfer resumes.
pub fn resume_offset(present: Option<u64>, size: u64) -> (r: u64)
    ensures
        r == resume_at(present, size),
{
    match present {
        Some(len) => if len < size {
            len
        } else {
            size
        },
        None => 0,
    }
}

/// A transfer resumes behind what is there, but not beyond its size; where nothing is there it begins
/// at its start.
pub proof fn law_transfers_resume_behind_what_is_there(present: Option<u64>, size: u64)
    ensures
        present is None ==> resume_at(present, size) == 0,
        present is Some && present->0 <= size ==> resume_at(present, size) == present->0,
        present is Some && present->0 > size ==> resume_at(present, size) == size,
{
}

/// A name that is taken is tried again under the next number, up to the last; a free one is used.
pub proof fn law_taken_names_are_tried_again(attempt: u32)
    ensures
        attempt_after(attempt, false) is None,
        attempt < 9999 ==> attempt_after(attempt, true) == Some((attempt + 1) as u32),
        attempt >= 9999 ==> attempt_after(attempt, true) is None,
{
}

/// The number of an attempt stands before the extension: behind the last full stop of a name that
/// does not begin with it. A name without extension has it at its end. The first attempt is the
/// name itself.
pub proof fn law_numbers_stand_before_the_extension(
    base: Seq<char>,
    ext: Seq<char>,
    attempt: u32,
)
    requires
        attempt >= 2,
        !ext.contains('.'),
    ensures
        attempt_name(base, 1) == base && attempt_name(base, 0) == base,
        base.len() > 0 ==> attempt_name(base.push('.') + ext, attempt) == base + " ("@
            + text::decimal(attempt as nat) + ")"@ + (seq!['.'] + ext),
        attempt_name(seq!['.'] + ext, attempt) == seq!['.'] + ext + " ("@ + text::decimal(
            attempt as nat,
        ) + ")"@,
        ext.len() > 0 ==> attempt_name(ext, attempt) == ext + " ("@ + text::decimal(attempt as nat)
            + ")"@,
        attempt_name(Seq::empty(), attempt) == "file"@ + " ("@ + text::decimal(attempt as nat)
            + ")"@,
{
    let none = Seq::<char>::empty();
    lemma_dot_before(base, ext);
    lemma_dot_before(none, ext);
    lemma_no_dot(ext);
    lemma_no_dot(none);
    assert(none.push('.') + ext =~= seq!['.'] + ext);
    let whole = base.push('.') + ext;
    if base.len() > 0 {
        assert(whole.take(base.len() as int) =~= base);
        assert(whole.skip(base.len() as int) =~= seq!['.'] + ext);
    }
    let number = " ("@ + text::decimal(attempt as nat) + ")"@;
    let dotted = seq!['.'] + ext;
    assert(attempt_name(dotted, attempt) =~= dotted + " ("@ + text::decimal(attempt as nat) + ")"@);
    if ext.len() > 0 {
        assert(attempt_name(ext, attempt) =~= ext + " ("@ + text::decimal(attempt as nat) + ")"@);
    }
    assert(attempt_name(none, attempt) =~= "file"@ + " ("@ + text::decimal(attempt as nat) + ")"@);
}

proof fn lemma_no_dot(s: Seq<char>)
    requires
        !s.contains('.'),
    ensures
        last_dot(s) == -1,
    decreases s.len(),
{
    if s.len() > 0 {
        assert(s.contains(s.last()));
        assert forall|k: int| 0 <= k < s.drop_last().len() implies #[trigger] s.drop_last()[k]
            != '.' by {
            assert(s.contains(s[k]));
        }
        lemma_no_dot(s.drop_last());
    }
}

proof fn lemma_dot_before(base: Seq<char>, ext: Seq<char>)
    requires
        !ext.contains('.'),
    ensures
        last_dot(base.push('.') + ext) == base.len(),
    decreases ext.len(),
{
    let whole = base.push('.') + ext;
    if ext.len() == 0 {
        assert(whole =~= base.push('.'));
    } else {
        assert(ext.contains(ext.last()));
        assert forall|k: int| 0 <= k < ext.drop_last().len() implies #[trigger] ext.drop_last()[k]
            != '.' by {
            assert(ext.contains(ext[k]));
        }
        lemma_dot_before(base, ext.drop_last());
        assert(whole.drop_last() =~= base.push('.') + ext.drop_last());
        assert(whole.last() == ext.last());
    }
}

/// The file name of a path is what stands behind its last separator: separators and single dots at
/// its end do not count, and a path that ends in two dots has none.
pub proof fn law_file_name_stands_last(dir: Seq<char>, name: Seq<char>)
    requires
        !name.contains('/'),
    ensures
        name.len() > 0 && name != "."@ && name != ".."@ ==> last_of(name) == Some(name) && last_of(
            dir.push('/') + name,
        ) == Some(name),
        last_of(dir.push('/')) == last_of(dir),
        last_of(dir.push('/') + "."@) == last_of(dir),
        last_of(dir.push('/') + ".."@) is None,
        last_of(".."@) is None,
        last_of("."@) is None,
        last_of(Seq::empty()) is None,
{
    reveal_strlit(".");
    reveal_strlit("..");
    let none = Seq::<char>::empty();
    assert(dir.push('/') + none =~= dir.push('/'));
    text::law_texts_are_cut_at_separators(dir, name, '/');
    text::law_texts_are_cut_at_separators(dir, none, '/');
    text::law_texts_are_cut_at_separators(dir, "."@, '/');
    text::law_texts_are_cut_at_separators(dir, ".."@, '/');
    text::lemma_one_piece(name, '/');
    text::lemma_one_piece(none, '/');
    text::lemma_one_piece("."@, '/');
    text::lemma_one_piece(".."@, '/');
    let parts = text::pieces(dir, '/');
    lemma_last_piece(parts, name);
    lemma_last_piece(parts, none);
    lemma_last_piece(parts, "."@);
    lemma_last_piece(parts, ".."@);
    lemma_last_piece(Seq::empty(), name);
    lemma_last_piece(Seq::empty(), none);
    lemma_last_piece(Seq::empty(), "."@);
    lemma_last_piece(Seq::empty(), ".."@);
}

proof fn lemma_last_piece(parts: Seq<Seq<char>>, last: Seq<char>)
    ensures
        parts + seq![last] == parts.push(last),
        last.len() == 0 || last == "."@ ==> last_part(parts.push(last)) == last_part(parts),
        last.len() > 0 && last == ".."@ && last != "."@ ==> last_part(parts.push(last)) is None,
        last.len() > 0 && last != "."@ && last != ".."@ ==> last_part(parts.push(last)) == Some(last),
        last_part(Seq::empty()) is None,
        Seq::empty().push(last) == seq![last],
{
    assert(parts + seq![last] =~= parts.push(last));
    assert(parts.push(last).drop_last() =~= parts);
    assert(Seq::empty().push(last) =~= seq![last]);
}

/// A file that a peer calls by a path is kept under the last component of the path, and under the
/// stock name where the path ends in two dots or holds none.
pub proof fn law_last_component_is_kept(dir: Seq<char>, name: Seq<char>, kept: Seq<char>)
    requires
        plain(name),
        portable(dir.push('/')),
    ensures
        kept_as(dir.push('/') + name, kept) ==> kept == name,
        kept_as(dir.push('/'), kept) && kept_as(dir, name) ==> kept == name,
        kept_as(dir.push('/') + ".."@, kept) ==> kept == "file.bin"@,
        kept_as(Seq::empty(), kept) ==> kept == "file.bin"@,
{
    reveal_strlit("..");
    reveal_strlit("//");
    law_file_name_stands_last(dir, name);
    lemma_portable_joined(dir, name);
    lemma_portable_joined(dir, ".."@);
    lemma_portable_joined(Seq::empty(), Seq::empty());
    let d = dir.push('/');
    assert(portable(dir)) by {
        if dir.contains('\\') {
            let k = choose|k: int| 0 <= k < dir.len() && dir[k] == '\\';
            assert(d[k] == '\\');
        }
        if dir.contains(':') {
            let k = choose|k: int| 0 <= k < dir.len() && dir[k] == ':';
            assert(d[k] == ':');
        }
        if text::begins(dir, "//"@) {
            assert(d.subrange(0, 2) =~= dir.subrange(0, 2));
        }
    }
    assert(portable(Seq::<char>::empty()));
}

proof fn lemma_portable_joined(dir: Seq<char>, name: Seq<char>)
    requires
        dir.len() == 0 || portable(dir.push('/')),
        !name.contains('/'),
        !name.contains('\\'),
        !name.contains(':'),
    ensures
        portable(dir.push('/') + name),
{
    reveal_strlit("//");
    let d = dir.push('/');
    let whole = d + name;
    if whole.contains('\\') {
        let k = choose|k: int| 0 <= k < whole.len() && whole[k] == '\\';
        if k < d.len() {
            if k < dir.len() {
                assert(d[k] == '\\');
            }
        } else {
            assert(name[k - d.len()] == '\\');
        }
    }
    if whole.contains(':') {
        let k = choose|k: int| 0 <= k < whole.len() && whole[k] == ':';
        if k < d.len() {
            if k < dir.len() {
                assert(d[k] == ':');
            }
        } else {
            assert(name[k - d.len()] == ':');
        }
    }
    if text::begins(whole, "//"@) {
        assert(whole.subrange(0, 2)[0] == '/' && whole.subrange(0, 2)[1] == '/');
        if d.len() >= 2 {
            assert(d.subrange(0, 2) =~= whole.subrange(0, 2));
        } else {
            assert(name[1 - d.len()] == '/');
        }
    }
}

/// Whatever a file was named by the peer, the name that it is kept under is one of a file, stands in
/// that name or is the stock name, and is no way to another directory; where no drive or host can
/// stand in it, it is the last component, by the one separator or by both.
pub proof fn law_kept_names_come_from_the_peer(name: Seq<char>, kept: Seq<char>)
    requires
        kept_as(name, kept),
    ensures
        kept.len() > 0 && kept != "."@ && kept != ".."@,
        !text::begins(name, "\\\\?\\"@) ==> !kept.contains('/'),
        text::occurs(name, kept) || kept == "file.bin"@,
        ({
            let other = text::replaced(name, '\\', '/');
            let by_one = if last_of(name) is Some {
                last_of(name)->0
            } else {
                "file.bin"@
            };
            let by_both = if last_of(other) is Some {
                last_of(other)->0
            } else {
                "file.bin"@
            };
            &&& !name.contains(':') && !text::begins(other, "//"@) ==> kept == by_one || kept
                == by_both
            &&& !name.contains(':') && !name.contains('\\') && !text::begins(name, "//"@) ==> kept
                == by_one
        }),
{
    let other = text::replaced(name, '\\', '/');
    assert(other =~= slashed(name));
    lemma_last_has_text(text::pieces(name, '/'));
    lemma_last_has_text(text::pieces(other, '/'));
}

proof fn lemma_last_has_text(parts: Seq<Seq<char>>)
    ensures
        last_part(parts) is Some ==> last_part(parts)->0.len() > 0,
    decreases parts.len(),
{
    if parts.len() > 0 {
        lemma_last_has_text(parts.drop_last());
    }
}

} // verus!
