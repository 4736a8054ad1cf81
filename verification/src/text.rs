//! Text helpers: the few string operations the rest of the library is stated with.
//!
//! A text is a `Seq<char>`; every executable function here has a specification
//! function over that view next to it.

use vstd::prelude::*;

verus! {

/// `String::push` appends one character.
pub assume_specification[ String::push ](s: &mut String, c: char)
    ensures
        final(s)@ == old(s)@.push(c),
;

/// `String::pop` takes the last character off, or leaves an empty text alone.
pub assume_specification[ String::pop ](s: &mut String) -> (r: Option<char>)
    ensures
        old(s)@.len() == 0 ==> r is None && final(s)@ == old(s)@,
        old(s)@.len() > 0 ==> r == Some(old(s)@.last()) && final(s)@ == old(s)@.drop_last(),
;

/// The characters of a text, one by one.
pub fn chars_of(s: &str) -> (v: Vec<char>)
    ensures
        v@ == s@,
{
    let mut v: Vec<char> = Vec::new();
    for c in it: s.chars()
        invariant
            v@ == it.seq().take(it.index() as int),
            it.seq() == s@,
    {
        v.push(c);
    }
    v
}

/// The text made of the characters `from..to`.
pub fn string_of(v: &Vec<char>, from: usize, to: usize) -> (s: String)
    requires
        from <= to <= v@.len(),
    ensures
        s@ == v@.subrange(from as int, to as int),
{
    let mut s = String::new();
    for i in from..to
        invariant
            from <= i <= to <= v@.len(),
            s@ == v@.subrange(from as int, i as int),
    {
        s.push(v[i]);
        assert(v@.subrange(from as int, i + 1) =~= v@.subrange(from as int, i as int).push(v@[i as int]));
    }
    s
}

/// Whether two texts hold the same characters.
pub fn same_text(a: &str, b: &str) -> (r: bool)
    ensures
        r == (a@ == b@),
{
    a.to_owned() == b.to_owned()
}

/// Two texts, one after the other.
pub fn joined(a: &str, b: &str) -> (r: String)
    ensures
        r@ == a@ + b@,
{
    let mut r = a.to_owned();
    r.append(b);
    r
}

/// `std::str::from_utf8`: the text of the bytes where they are UTF-8.
#[verifier::external_body]
pub(crate) fn utf8_text(bytes: &[u8]) -> (r: Option<String>)
    ensures
        match r {
            Some(t) => vstd::utf8::valid_utf8(bytes@) && t@ == vstd::utf8::decode_utf8(bytes@),
            None => !vstd::utf8::valid_utf8(bytes@),
        },
{
    std::str::from_utf8(bytes).ok().map(|t| t.to_string())
}

/// The texts of a list of strings.
pub open spec fn texts(v: Seq<String>) -> Seq<Seq<char>> {
    v.map_values(|s: String| s@)
}

/// A copy of an optional string.
pub fn copied(s: &Option<String>) -> (r: Option<String>)
    ensures
        text_in(r) == text_in(*s),
{
    match s {
        Some(t) => Some(t.as_str().to_owned()),
        None => None,
    }
}

/// The text in an optional string.
pub open spec fn text_in(s: Option<String>) -> Option<Seq<char>> {
    match s {
        Some(t) => Some(t@),
        None => None,
    }
}

// ---------------------------------------------------------------- white space

/// Unicode's `White_Space` property.
pub open spec fn is_white(c: char) -> bool {
    let u = c as u32;
    ||| 0x09 <= u <= 0x0d
    ||| u == 0x20
    ||| u == 0x85
    ||| u == 0xa0
    ||| u == 0x1680
    ||| 0x2000 <= u <= 0x200a
    ||| u == 0x2028
    ||| u == 0x2029
    ||| u == 0x202f
    ||| u == 0x205f
    ||| u == 0x3000
}

/// Whether a character is white space.
pub fn white(c: char) -> (r: bool)
    ensures
        r == is_white(c),
{
    let u: u32 = c as u32;
    (0x09 <= u && u <= 0x0d) || u == 0x20 || u == 0x85 || u == 0xa0 || u == 0x1680 || (0x2000 <= u
        && u <= 0x200a) || u == 0x2028 || u == 0x2029 || u == 0x202f || u == 0x205f || u == 0x3000
}

/// The text without its leading white space.
pub open spec fn trimmed_front(s: Seq<char>) -> Seq<char>
    decreases s.len(),
{
    if s.len() > 0 && is_white(s[0]) {
        trimmed_front(s.drop_first())
    } else {
        s
    }
}

/// The text without its trailing white space.
pub open spec fn trimmed_back(s: Seq<char>) -> Seq<char>
    decreases s.len(),
{
    if s.len() > 0 && is_white(s.last()) {
        trimmed_back(s.drop_last())
    } else {
        s
    }
}

/// The text without white space at either end.
pub open spec fn trimmed(s: Seq<char>) -> Seq<char> {
    trimmed_back(trimmed_front(s))
}

/// Removes white space at both ends.
pub fn trim(s: &str) -> (r: String)
    ensures
        r@ == trimmed(s@),
{
    let v = chars_of(s);
    assert(v@.subrange(0, v@.len() as int) =~= s@);
    trim_range(&v, 0, v.len())
}

/// The characters `lo..hi`, without white space at either end.
pub fn trim_range(v: &Vec<char>, lo: usize, hi: usize) -> (r: String)
    requires
        lo <= hi <= v@.len(),
    ensures
        r@ == trimmed(v@.subrange(lo as int, hi as int)),
{
    let mut from: usize = lo;
    let ghost whole = v@.subrange(lo as int, hi as int);
    while from < hi && white(v[from])
        invariant
            lo <= from <= hi <= v@.len(),
            whole == v@.subrange(lo as int, hi as int),
            trimmed_front(whole) == trimmed_front(v@.subrange(from as int, hi as int)),
        decreases hi - from,
    {
        assert(v@.subrange(from as int, hi as int).drop_first() =~= v@.subrange(from + 1, hi as int));
        from += 1;
    }
    let ghost front = v@.subrange(from as int, hi as int);
    assert(trimmed_front(whole) == front);
    let mut to: usize = hi;
    while to > from && white(v[to - 1])
        invariant
            from <= to <= hi <= v@.len(),
            front == v@.subrange(from as int, hi as int),
            trimmed_back(front) == trimmed_back(v@.subrange(from as int, to as int)),
        decreases to - from,
    {
        assert(v@.subrange(from as int, to as int).drop_last() =~= v@.subrange(from as int, to - 1));
        to -= 1;
    }
    assert(trimmed_back(front) == v@.subrange(from as int, to as int));
    string_of(v, from, to)
}

// ---------------------------------------------------------------- ASCII case

/// The ASCII lower case of a character; other characters stay.
pub open spec fn lower(c: char) -> char {
    if 'A' <= c <= 'Z' {
        ((c as u8) + 32) as u8 as char
    } else {
        c
    }
}

/// The text with every ASCII capital lowered.
pub open spec fn lowered(s: Seq<char>) -> Seq<char> {
    s.map_values(|c: char| lower(c))
}

/// Lowers the ASCII capitals of a text.
pub fn to_lower(s: &str) -> (r: String)
    ensures
        r@ == lowered(s@),
{
    let v = chars_of(s);
    let mut r = String::new();
    for i in 0..v.len()
        invariant
            v@ == s@,
            r@ == lowered(v@.take(i as int)),
    {
        let c = v[i];
        if 'A' <= c && c <= 'Z' {
            let b: u8 = c as u8;
            r.push((b + 32) as char);
        } else {
            r.push(c);
        }
        assert(lowered(v@.take(i + 1)) =~= lowered(v@.take(i as int)).push(lower(c)));
    }
    assert(v@.take(v@.len() as int) =~= v@);
    r
}

// ---------------------------------------------------------------- search

/// Whether `part` stands in `whole` at position `at`.
pub open spec fn stands_at(whole: Seq<char>, part: Seq<char>, at: int) -> bool {
    &&& 0 <= at
    &&& at + part.len() <= whole.len()
    &&& whole.subrange(at, at + part.len()) == part
}

/// Whether `part` occurs anywhere in `whole`.
pub open spec fn occurs(whole: Seq<char>, part: Seq<char>) -> bool {
    exists|at: int| #[trigger] stands_at(whole, part, at)
}

/// Whether `whole` begins with `part`.
pub open spec fn begins(whole: Seq<char>, part: Seq<char>) -> bool {
    stands_at(whole, part, 0)
}

fn found_at(whole: &Vec<char>, part: &Vec<char>, at: usize) -> (r: bool)
    requires
        at + part@.len() <= whole@.len(),
    ensures
        r == stands_at(whole@, part@, at as int),
{
    let size: usize = whole.len();
    let mut i: usize = 0;
    while i < part.len()
        invariant
            i <= part@.len(),
            at + part@.len() <= whole@.len() == size,
            forall|j: int| 0 <= j < i ==> whole@[at + j] == part@[j],
        decreases part@.len() - i,
    {
        if whole[at + i] != part[i] {
            assert(whole@.subrange(at as int, at + part@.len())[i as int] != part@[i as int]);
            return false;
        }
        i += 1;
    }
    assert(whole@.subrange(at as int, at + part@.len()) =~= part@);
    true
}

/// Whether one text occurs in another.
pub fn contains(whole: &str, part: &str) -> (r: bool)
    ensures
        r == occurs(whole@, part@),
{
    let w = chars_of(whole);
    let p = chars_of(part);
    if p.len() > w.len() {
        return false;
    }
    let last: usize = w.len() - p.len();
    let mut at: usize = 0;
    while at <= last
        invariant
            at <= last + 1,
            last == w@.len() - p@.len(),
            w@ == whole@,
            p@ == part@,
            forall|k: int| 0 <= k < at ==> !stands_at(w@, p@, k),
        decreases last + 1 - at,
    {
        if found_at(&w, &p, at) {
            return true;
        }
        if at == last {
            return false;
        }
        at += 1;
    }
    false
}

/// Whether a text begins with another.
pub fn starts_with(whole: &str, part: &str) -> (r: bool)
    ensures
        r == begins(whole@, part@),
{
    let w = chars_of(whole);
    let p = chars_of(part);
    if p.len() > w.len() {
        return false;
    }
    found_at(&w, &p, 0)
}

// ---------------------------------------------------------------- numbers

/// The decimal digit `d`.
pub open spec fn digit(d: nat) -> char {
    (('0' as u8) + d) as u8 as char
}

/// A number in decimal, without leading zeros.
pub open spec fn decimal(n: nat) -> Seq<char>
    decreases n,
{
    if n < 10 {
        seq![digit(n)]
    } else {
        decimal(n / 10).push(digit(n % 10))
    }
}

/// Writes a number in decimal.
pub fn number_text(n: u64) -> (r: String)
    ensures
        r@ == decimal(n as nat),
    decreases n,
{
    let mut r = if n < 10 {
        String::new()
    } else {
        number_text(n / 10)
    };
    let d: u8 = (n % 10) as u8;
    r.push((48u8 + d) as char);
    assert(n < 10 ==> r@ =~= seq![digit(n as nat)]);
    r
}

/// The hexadecimal digit `d`, in lower case.
pub open spec fn hex_digit(d: nat) -> char {
    if d < 10 {
        digit(d)
    } else {
        (('a' as u8) + d - 10) as u8 as char
    }
}

/// A number in lower-case hexadecimal, without leading zeros.
pub open spec fn hexadecimal(n: nat) -> Seq<char>
    decreases n,
{
    if n < 16 {
        seq![hex_digit(n)]
    } else {
        hexadecimal(n / 16).push(hex_digit(n % 16))
    }
}

/// Writes a number in lower-case hexadecimal.
pub fn hex_text(n: u64) -> (r: String)
    ensures
        r@ == hexadecimal(n as nat),
    decreases n,
{
    let mut r = if n < 16 {
        String::new()
    } else {
        hex_text(n / 16)
    };
    let d: u8 = (n % 16) as u8;
    if d < 10 {
        r.push((48u8 + d) as char);
    } else {
        r.push((97u8 + (d - 10)) as char);
    }
    assert(n < 16 ==> r@ =~= seq![hex_digit(n as nat)]);
    r
}

/// Whether every character is a decimal digit.
pub open spec fn all_digits(s: Seq<char>) -> bool {
    forall|i: int| 0 <= i < s.len() ==> '0' <= #[trigger] s[i] <= '9'
}

/// The number that a row of decimal digits writes.
pub open spec fn digits_value(s: Seq<char>) -> nat
    decreases s.len(),
{
    if s.len() == 0 {
        0
    } else {
        10 * digits_value(s.drop_last()) + ((s.last() as u8 - '0' as u8) as nat)
    }
}

/// The digits of a number's text: what follows an optional plus sign.
pub open spec fn unsigned_digits(s: Seq<char>) -> Seq<char> {
    if s.len() > 0 && s[0] == '+' {
        s.drop_first()
    } else {
        s
    }
}

/// The number that a text writes: decimal digits, perhaps after a plus sign, and
/// no more than 64 bits hold.
pub open spec fn number_in(s: Seq<char>) -> Option<u64> {
    let d = unsigned_digits(s);
    if d.len() > 0 && all_digits(d) && digits_value(d) <= u64::MAX {
        Some(digits_value(d) as u64)
    } else {
        None
    }
}

proof fn lemma_digits_value_grows(s: Seq<char>, k: int)
    requires
        0 <= k <= s.len(),
        all_digits(s),
    ensures
        digits_value(s.take(k)) <= digits_value(s),
    decreases s.len() - k,
{
    if k < s.len() {
        lemma_digits_value_grows(s, k + 1);
        assert(s.take(k + 1).drop_last() =~= s.take(k));
    } else {
        assert(s.take(k) =~= s);
    }
}

/// Reads an unsigned number.
pub fn parse_number(s: &str) -> (r: Option<u64>)
    ensures
        r == number_in(s@),
{
    let v = chars_of(s);
    let from: usize = if v.len() > 0 && v[0] == '+' {
        1
    } else {
        0
    };
    let ghost d = unsigned_digits(s@);
    assert(d =~= v@.subrange(from as int, v@.len() as int));
    if from == v.len() {
        return None;
    }
    let mut n: u64 = 0;
    let mut i: usize = from;
    while i < v.len()
        invariant
            from <= i <= v@.len(),
            d == v@.subrange(from as int, v@.len() as int),
            d == unsigned_digits(s@),
            all_digits(d.take(i - from)),
            n == digits_value(d.take(i - from)),
        decreases v@.len() - i,
    {
        let c = v[i];
        let ghost k = i - from;
        assert(d[k] == c);
        assert(d.take(k + 1).drop_last() =~= d.take(k));
        assert(d.take(k + 1).last() == c);
        if c < '0' || c > '9' {
            assert(!all_digits(d));
            return None;
        }
        let step: u64 = (c as u8 - 48u8) as u64;
        assert(all_digits(d.take(k + 1))) by {
            assert forall|j: int| 0 <= j < k + 1 implies '0' <= #[trigger] d.take(k + 1)[j] <= '9' by {
                if j < k {
                    assert(d.take(k)[j] == d[j]);
                }
            }
        }
        assert(digits_value(d.take(k + 1)) == 10 * n + step);
        if n > (u64::MAX - step) / 10 {
            proof {
                if all_digits(d) {
                    lemma_digits_value_grows(d, k + 1);
                }
            }
            return None;
        }
        n = 10 * n + step;
        i += 1;
    }
    assert(d.take(v@.len() - from) =~= d);
    Some(n)
}

/// The decimal digits of a number stand for it.
pub proof fn lemma_decimal_value(n: nat)
    ensures
        digits_value(decimal(n)) == n,
    decreases n,
{
    if n >= 10 {
        lemma_decimal_value(n / 10);
        assert(decimal(n).drop_last() =~= decimal(n / 10));
        assert(decimal(n).last() as u8 - '0' as u8 == n % 10);
    } else {
        assert(decimal(n).drop_last() =~= Seq::<char>::empty());
        assert(decimal(n).last() as u8 - '0' as u8 == n);
        reveal_with_fuel(digits_value, 2);
    }
}

/// A number is written in digits alone.
pub proof fn lemma_decimal_digits(n: nat)
    ensures
        all_digits(decimal(n)),
    decreases n,
{
    if n >= 10 {
        lemma_decimal_digits(n / 10);
    }
}

// ---------------------------------------------------------------- splitting

/// The pieces between the separators; there is always one more piece than
/// separators.
pub open spec fn pieces(s: Seq<char>, sep: char) -> Seq<Seq<char>>
    decreases s.len(),
{
    if s.len() == 0 {
        seq![Seq::empty()]
    } else if s.last() == sep {
        pieces(s.drop_last(), sep).push(Seq::empty())
    } else {
        let before = pieces(s.drop_last(), sep);
        before.drop_last().push(before.last().push(s.last()))
    }
}

/// Whether a piece holds only characters of a text, and no separator.
pub open spec fn within(piece: Seq<char>, s: Seq<char>, sep: char) -> bool {
    forall|k: int| 0 <= k < piece.len() ==> s.contains(#[trigger] piece[k]) && piece[k] != sep
}

/// The pieces hold only characters of the text, and no separator.
pub proof fn lemma_pieces_hold(s: Seq<char>, sep: char)
    ensures
        pieces(s, sep).len() > 0,
        forall|i: int| 0 <= i < pieces(s, sep).len() ==> within(#[trigger] pieces(s, sep)[i], s, sep),
    decreases s.len(),
{
    if s.len() > 0 {
        let front = s.drop_last();
        let before = pieces(front, sep);
        let now = pieces(s, sep);
        lemma_pieces_hold(front, sep);
        assert forall|c: char| #[trigger] front.contains(c) implies s.contains(c) by {
            let k = choose|k: int| 0 <= k < front.len() && front[k] == c;
            assert(s[k] == c);
        }
        assert(s.contains(s.last()));
        assert forall|i: int| 0 <= i < now.len() implies within(#[trigger] now[i], s, sep) by {
            if i < before.len() {
                assert(within(before[i], front, sep));
            }
        }
    }
}

/// A text without separators is its own only piece.
pub proof fn lemma_one_piece(s: Seq<char>, sep: char)
    requires
        !s.contains(sep),
    ensures
        pieces(s, sep) == seq![s],
    decreases s.len(),
{
    if s.len() > 0 {
        let front = s.drop_last();
        assert(s.contains(s.last()));
        assert forall|k: int| 0 <= k < front.len() implies #[trigger] front[k] != sep by {
            assert(s.contains(s[k]));
        }
        lemma_one_piece(front, sep);
        assert(front.push(s.last()) =~= s);
        assert(pieces(s, sep) =~= seq![s]);
    } else {
        assert(s =~= Seq::empty());
    }
}

/// The pieces that are not blank, without white space at their ends.
pub open spec fn kept_pieces(all: Seq<Seq<char>>) -> Seq<Seq<char>>
    decreases all.len(),
{
    if all.len() == 0 {
        Seq::empty()
    } else {
        let before = kept_pieces(all.drop_last());
        let last = trimmed(all.last());
        if last.len() > 0 {
            before.push(last)
        } else {
            before
        }
    }
}

/// The entries of a list with separators: its pieces, trimmed, blank ones left out.
pub fn list_entries(s: &str, sep: char) -> (r: Vec<String>)
    ensures
        texts(r@) == kept_pieces(pieces(s@, sep)),
{
    let v = chars_of(s);
    let mut r: Vec<String> = Vec::new();
    let mut start: usize = 0;
    let mut i: usize = 0;
    let ghost mut done: Seq<Seq<char>> = Seq::empty();
    assert(v@.subrange(0, 0) =~= Seq::<char>::empty());
    assert(pieces(v@.take(0), sep) =~= done.push(v@.subrange(0, 0)));
    assert(texts(r@) =~= kept_pieces(done));
    while i < v.len()
        invariant
            start <= i <= v@.len(),
            v@ == s@,
            pieces(v@.take(i as int), sep) == done.push(v@.subrange(start as int, i as int)),
            texts(r@) == kept_pieces(done),
        decreases v@.len() - i,
    {
        let ghost seen = v@.take(i + 1);
        let ghost piece = v@.subrange(start as int, i as int);
        assert(seen.drop_last() =~= v@.take(i as int));
        assert(done.push(piece).drop_last() =~= done);
        if v[i] == sep {
            let entry = trim_range(&v, start, i);
            let ghost before = r@;
            if entry.as_str().is_empty() {
            } else {
                r.push(entry);
                assert(texts(r@) =~= texts(before).push(entry@));
            }
            proof {
                done = done.push(piece);
            }
            assert(done.drop_last() =~= done.take(done.len() - 1));
            start = i + 1;
            assert(v@.subrange(start as int, i + 1) =~= Seq::<char>::empty());
        } else {
            assert(v@.subrange(start as int, i + 1) =~= piece.push(v@[i as int]));
        }
        i += 1;
    }
    let ghost piece = v@.subrange(start as int, i as int);
    let entry = trim_range(&v, start, i);
    let ghost before = r@;
    if entry.as_str().is_empty() {
    } else {
        r.push(entry);
        assert(texts(r@) =~= texts(before).push(entry@));
    }
    assert(done.push(piece).drop_last() =~= done);
    assert(v@.take(i as int) =~= s@);
    r
}

/// The text with every `from` replaced by `to`.
pub open spec fn replaced(s: Seq<char>, from: char, to: char) -> Seq<char> {
    s.map_values(|c: char| if c == from { to } else { c })
}

/// The text with every `from` replaced by `to`.
pub fn replace_char(s: &str, from: char, to: char) -> (r: String)
    ensures
        r@ == replaced(s@, from, to),
{
    let v = chars_of(s);
    let mut r = String::new();
    let mut i: usize = 0;
    while i < v.len()
        invariant
            i <= v@.len(),
            v@ == s@,
            r@ == replaced(s@, from, to).take(i as int),
        decreases v@.len() - i,
    {
        if v[i] == from {
            r.push(to);
        } else {
            r.push(v[i]);
        }
        assert(r@ =~= replaced(s@, from, to).take(i + 1));
        i += 1;
    }
    assert(r@ =~= replaced(s@, from, to));
    r
}

// ---------------------------------------------------------------- order

/// Whether one text stands before another in code-point order.
pub open spec fn precedes(a: Seq<char>, b: Seq<char>) -> bool
    decreases a.len(),
{
    if b.len() == 0 {
        false
    } else if a.len() == 0 {
        true
    } else if a[0] == b[0] {
        precedes(a.drop_first(), b.drop_first())
    } else {
        a[0] < b[0]
    }
}

/// No text stands before itself, and of two different texts exactly one stands
/// before the other.
pub proof fn lemma_precedes_total(a: Seq<char>, b: Seq<char>)
    ensures
        a == b ==> !precedes(a, b),
        a != b ==> precedes(a, b) != precedes(b, a),
    decreases a.len(),
{
    if a.len() > 0 && b.len() > 0 && a[0] == b[0] {
        lemma_precedes_total(a.drop_first(), b.drop_first());
        if a.drop_first() == b.drop_first() {
            assert(a =~= seq![a[0]] + a.drop_first());
            assert(b =~= seq![b[0]] + b.drop_first());
        }
    } else if a.len() == 0 && b.len() == 0 {
        assert(a =~= b);
    }
}

/// The order of texts is transitive.
pub proof fn lemma_precedes_transitive(a: Seq<char>, b: Seq<char>, c: Seq<char>)
    requires
        precedes(a, b),
        precedes(b, c),
    ensures
        precedes(a, c),
    decreases a.len(),
{
    if a.len() > 0 && a[0] == b[0] && b[0] == c[0] {
        lemma_precedes_transitive(a.drop_first(), b.drop_first(), c.drop_first());
    }
}

/// Whether one text stands before another in code-point order.
pub fn text_before(a: &str, b: &str) -> (r: bool)
    ensures
        r == precedes(a@, b@),
{
    let x = chars_of(a);
    let y = chars_of(b);
    let mut i: usize = 0;
    assert(x@.skip(0) =~= x@);
    assert(y@.skip(0) =~= y@);
    while i < x.len() && i < y.len()
        invariant
            i <= x@.len(),
            i <= y@.len(),
            x@ == a@,
            y@ == b@,
            precedes(a@, b@) == precedes(x@.skip(i as int), y@.skip(i as int)),
        decreases x@.len() - i,
    {
        if x[i] != y[i] {
            return x[i] < y[i];
        }
        assert(x@.skip(i as int).drop_first() =~= x@.skip(i + 1));
        assert(y@.skip(i as int).drop_first() =~= y@.skip(i + 1));
        i += 1;
    }
    i < y.len()
}

// ---------------------------------------------------------------- laws

/// White space is the blank, the control characters from tab to carriage return, and the blanks of
/// other scripts; no visible character is.
pub proof fn law_white_space(c: char)
    ensures
        c as u32 <= 0x7f ==> (is_white(c) <==> c == ' ' || 9 <= c as u32 <= 13),
        0x80 <= c as u32 <= 0x167f ==> (is_white(c) <==> c as u32 == 0x85 || c as u32 == 0xa0),
        0x1680 <= c as u32 <= 0x1fff ==> (is_white(c) <==> c as u32 == 0x1680),
        0x2000 <= c as u32 <= 0x2fff ==> (is_white(c) <==> c as u32 <= 0x200a || c as u32 == 0x2028
            || c as u32 == 0x2029 || c as u32 == 0x202f || c as u32 == 0x205f),
        c as u32 >= 0x3000 ==> (is_white(c) <==> c as u32 == 0x3000),
{
}

/// Trimming takes white space away at both ends and nothing else: what is left begins and ends with
/// something to see.
pub proof fn law_trimming_takes_white_space(s: Seq<char>)
    ensures
        exists|i: int, j: int|
            0 <= i <= j <= s.len() && trimmed(s) == #[trigger] s.subrange(i, j) && (forall|k: int|
                0 <= k < i || j <= k < s.len() ==> is_white(#[trigger] s[k])),
        trimmed(s).len() > 0 ==> !is_white(trimmed(s)[0]) && !is_white(trimmed(s).last()),
{
    lemma_front(s);
    let i = choose|i: int|
        0 <= i <= s.len() && trimmed_front(s) == #[trigger] s.skip(i) && (forall|k: int|
            0 <= k < i ==> is_white(#[trigger] s[k]));
    let front = s.skip(i);
    lemma_back(front);
    let n = choose|n: int|
        0 <= n <= front.len() && trimmed_back(front) == #[trigger] front.take(n) && (forall|k: int|
            n <= k < front.len() ==> is_white(#[trigger] front[k]));
    assert(trimmed(s) =~= s.subrange(i, i + n));
    assert forall|k: int| 0 <= k < i || i + n <= k < s.len() implies is_white(#[trigger] s[k]) by {
        if k >= i + n {
            assert(front[k - i] == s[k]);
        }
    }
    if n > 0 {
        assert(front.take(n)[0] == front[0]);
    }
}

proof fn lemma_front(s: Seq<char>)
    ensures
        exists|i: int|
            0 <= i <= s.len() && trimmed_front(s) == #[trigger] s.skip(i) && (forall|k: int|
                0 <= k < i ==> is_white(#[trigger] s[k])),
        trimmed_front(s).len() > 0 ==> !is_white(trimmed_front(s)[0]),
    decreases s.len(),
{
    if s.len() > 0 && is_white(s[0]) {
        let rest = s.drop_first();
        lemma_front(rest);
        let i = choose|i: int|
            0 <= i <= rest.len() && trimmed_front(rest) == #[trigger] rest.skip(i) && (forall|
                k: int,
            | 0 <= k < i ==> is_white(#[trigger] rest[k]));
        assert(rest.skip(i) =~= s.skip(i + 1));
        assert forall|k: int| 0 <= k < i + 1 implies is_white(#[trigger] s[k]) by {
            if k > 0 {
                assert(rest[k - 1] == s[k]);
            }
        }
    } else {
        assert(s.skip(0) =~= s);
    }
}

proof fn lemma_back(s: Seq<char>)
    ensures
        exists|n: int|
            0 <= n <= s.len() && trimmed_back(s) == #[trigger] s.take(n) && (forall|k: int|
                n <= k < s.len() ==> is_white(#[trigger] s[k])),
        trimmed_back(s).len() > 0 ==> !is_white(trimmed_back(s).last()),
    decreases s.len(),
{
    if s.len() > 0 && is_white(s.last()) {
        let rest = s.drop_last();
        lemma_back(rest);
        let n = choose|n: int|
            0 <= n <= rest.len() && trimmed_back(rest) == #[trigger] rest.take(n) && (forall|k: int|
                n <= k < rest.len() ==> is_white(#[trigger] rest[k]));
        assert(rest.take(n) =~= s.take(n));
        assert forall|k: int| n <= k < s.len() implies is_white(#[trigger] s[k]) by {
            if k < rest.len() {
                assert(rest[k] == s[k]);
            }
        }
    } else {
        assert(s.take(s.len() as int) =~= s);
    }
}

/// Lowering moves each capital of the English alphabet to its small letter, and no other character.
pub proof fn law_lowering_moves_capitals(s: Seq<char>, i: int)
    requires
        0 <= i < s.len(),
    ensures
        lowered(s).len() == s.len(),
        'A' <= s[i] <= 'Z' ==> lowered(s)[i] as u32 == s[i] as u32 + 32,
        !('A' <= s[i] <= 'Z') ==> lowered(s)[i] == s[i],
{
}

/// One text stands in another where its characters stand there one behind the other.
pub proof fn law_found_texts_stand_there(whole: Seq<char>, part: Seq<char>, at: int)
    ensures
        stands_at(whole, part, at) <==> 0 <= at && at + part.len() <= whole.len() && (forall|i: int|
            0 <= i < part.len() ==> whole[at + i] == #[trigger] part[i]),
        stands_at(whole, part, at) ==> occurs(whole, part),
        begins(whole, part) <==> part.len() <= whole.len() && whole.take(part.len() as int) == part,
        occurs(whole, part) ==> exists|a: Seq<char>, b: Seq<char>| whole == #[trigger] (a + part + b),
{
    if 0 <= at && at + part.len() <= whole.len() {
        if forall|i: int| 0 <= i < part.len() ==> whole[at + i] == #[trigger] part[i] {
            assert(whole.subrange(at, at + part.len()) =~= part);
        }
        if stands_at(whole, part, at) {
            assert forall|i: int| 0 <= i < part.len() implies whole[at + i] == #[trigger] part[i] by {
                assert(whole.subrange(at, at + part.len())[i] == whole[at + i]);
            }
        }
    }
    if part.len() <= whole.len() {
        assert(whole.subrange(0, part.len() as int) =~= whole.take(part.len() as int));
    }
    if occurs(whole, part) {
        let k = choose|k: int| #[trigger] stands_at(whole, part, k);
        assert(whole =~= whole.take(k) + part + whole.skip(k + part.len()));
    }
}

/// A number is written digit by digit, the last one last, without zeros before it.
pub proof fn law_numbers_are_written_in_digits(n: nat, d: nat)
    requires
        d < 10,
    ensures
        decimal(d).len() == 1,
        decimal(d)[0] as u32 == 48 + d,
        n > 0 ==> decimal(10 * n + d) == decimal(n) + decimal(d),
        n > 0 ==> decimal(n)[0] != '0',
    decreases n,
{
    if n > 0 {
        assert(decimal(10 * n + d) =~= decimal(n) + decimal(d));
        if n >= 10 {
            law_numbers_are_written_in_digits(n / 10, d);
            assert(decimal(n)[0] == decimal(n / 10)[0]) by {
                lemma_decimal_digits(n / 10);
                assert(decimal(n / 10).len() > 0);
            }
        }
    }
}

/// A number in hexadecimal is written digit by digit, ten to fifteen as small letters.
pub proof fn law_numbers_are_written_in_hexadecimal(n: nat, d: nat)
    requires
        d < 16,
    ensures
        hexadecimal(d).len() == 1,
        d < 10 ==> hexadecimal(d)[0] as u32 == 48 + d,
        d >= 10 ==> hexadecimal(d)[0] as u32 == 97 + d - 10,
        n > 0 ==> hexadecimal(16 * n + d) == hexadecimal(n) + hexadecimal(d),
{
    if n > 0 {
        assert(hexadecimal(16 * n + d) =~= hexadecimal(n) + hexadecimal(d));
    }
}

/// A number that was written is read, also behind a plus sign; one that 64 bits do not hold is
/// not, nor any text with something other than digits in it.
pub proof fn law_written_numbers_are_read(n: nat, s: Seq<char>, i: int)
    ensures
        n <= u64::MAX ==> number_in(decimal(n)) == Some(n as u64),
        n <= u64::MAX ==> number_in(seq!['+'] + decimal(n)) == Some(n as u64),
        n > u64::MAX ==> number_in(decimal(n)) is None,
        number_in(Seq::empty()) is None,
        0 < i < s.len() && !('0' <= s[i] <= '9') ==> number_in(s) is None,
        s.len() > 0 && !('0' <= s[0] <= '9') && s[0] != '+' ==> number_in(s) is None,
        number_in(seq!['0'] + decimal(n)) == number_in(decimal(n)),
{
    lemma_decimal_value(n);
    lemma_decimal_digits(n);
    let d = decimal(n);
    assert(d.len() > 0);
    assert(d[0] != '+');
    assert((seq!['+'] + d).drop_first() =~= d);
    let z = seq!['0'] + d;
    lemma_leading_zero(d);
    if 0 < i < s.len() && !('0' <= s[i] <= '9') {
        let u = unsigned_digits(s);
        if s[0] == '+' {
            assert(u[i - 1] == s[i]);
        } else {
            assert(u[i] == s[i]);
        }
    }
    if s.len() > 0 && !('0' <= s[0] <= '9') && s[0] != '+' {
        assert(unsigned_digits(s)[0] == s[0]);
    }
    assert(all_digits(z)) by {
        assert forall|k: int| 0 <= k < z.len() implies '0' <= #[trigger] z[k] <= '9' by {
            if k > 0 {
                assert(z[k] == d[k - 1]);
            }
        }
    }
}

proof fn lemma_leading_zero(d: Seq<char>)
    requires
        all_digits(d),
    ensures
        digits_value(seq!['0'] + d) == digits_value(d),
    decreases d.len(),
{
    let z = seq!['0'] + d;
    if d.len() == 0 {
        assert(z.drop_last() =~= Seq::<char>::empty());
        assert(z.last() == '0');
        reveal_with_fuel(digits_value, 2);
    } else {
        assert forall|k: int| 0 <= k < d.drop_last().len() implies '0' <= #[trigger] d.drop_last()[k]
            <= '9' by {
            assert(d.drop_last()[k] == d[k]);
        }
        lemma_leading_zero(d.drop_last());
        assert(z.drop_last() =~= seq!['0'] + d.drop_last());
        assert(z.last() == d.last());
    }
}

/// A text is cut at every separator and nowhere else: a text without one is its own only piece, and
/// the pieces of two texts with one between them are the pieces of both.
pub proof fn law_texts_are_cut_at_separators(a: Seq<char>, b: Seq<char>, sep: char)
    ensures
        !a.contains(sep) ==> pieces(a, sep) == seq![a],
        pieces(a.push(sep) + b, sep) == pieces(a, sep) + pieces(b, sep),
    decreases b.len(),
{
    if !a.contains(sep) {
        lemma_one_piece(a, sep);
    }
    let whole = a.push(sep) + b;
    lemma_pieces_hold(b, sep);
    if b.len() == 0 {
        assert(whole =~= a.push(sep));
        assert(whole.drop_last() =~= a);
        assert(pieces(whole, sep) =~= pieces(a, sep) + pieces(b, sep));
    } else {
        let less = b.drop_last();
        law_texts_are_cut_at_separators(a, less, sep);
        lemma_pieces_hold(less, sep);
        assert(whole.drop_last() =~= a.push(sep) + less);
        assert(whole.last() == b.last());
        let before = pieces(a, sep) + pieces(less, sep);
        assert(before.last() == pieces(less, sep).last());
        assert(pieces(whole, sep) =~= pieces(a, sep) + pieces(b, sep));
    }
}

/// The entries of a list are its pieces that are not blank, trimmed, in order.
pub proof fn law_entries_are_the_pieces_with_text(a: Seq<Seq<char>>, piece: Seq<char>)
    ensures
        kept_pieces(Seq::<Seq<char>>::empty()).len() == 0,
        trimmed(piece).len() > 0 ==> kept_pieces(a.push(piece)) == kept_pieces(a).push(
            trimmed(piece),
        ),
        trimmed(piece).len() == 0 ==> kept_pieces(a.push(piece)) == kept_pieces(a),
{
    assert(a.push(piece).drop_last() =~= a);
}

/// Replacing changes the characters that are to be replaced, and no other.
pub proof fn law_replacing_changes_no_other(s: Seq<char>, from: char, to: char, i: int)
    requires
        0 <= i < s.len(),
    ensures
        replaced(s, from, to).len() == s.len(),
        s[i] == from ==> replaced(s, from, to)[i] == to,
        s[i] != from ==> replaced(s, from, to)[i] == s[i],
{
}

/// The first character in which two texts differ decides which stands before the other; where there
/// is none, the shorter one does.
pub proof fn law_first_difference_decides(a: Seq<char>, b: Seq<char>, i: int)
    requires
        0 <= i <= a.len(),
        i <= b.len(),
        forall|k: int| 0 <= k < i ==> #[trigger] a[k] == b[k],
    ensures
        i < a.len() && i < b.len() && a[i] != b[i] ==> (precedes(a, b) <==> a[i] < b[i]),
        i == a.len() ==> (precedes(a, b) <==> a.len() < b.len()),
        i == b.len() ==> !precedes(a, b),
    decreases i,
{
    if i > 0 {
        let (x, y) = (a.drop_first(), b.drop_first());
        assert(a[0] == b[0]);
        assert forall|k: int| 0 <= k < i - 1 implies #[trigger] x[k] == y[k] by {
            assert(a[k + 1] == b[k + 1]);
        }
        law_first_difference_decides(x, y, i - 1);
    }
}

/// The texts of a list are those that it holds, in its order; that of an optional one is there where
/// the other is.
pub proof fn law_texts_are_those_held(v: Seq<String>, i: int, s: Option<String>)
    ensures
        texts(v).len() == v.len(),
        0 <= i < v.len() ==> texts(v)[i] == v[i]@,
        s is Some ==> text_in(s) == Some(s->0@),
        s is None ==> text_in(s) is None,
{
}

/// A number is read with any zeros before it.
pub proof fn law_zeros_before_count_for_nothing(s: Seq<char>)
    requires
        s.len() > 0,
        forall|i: int| 0 <= i < s.len() ==> '0' <= #[trigger] s[i] <= '9',
    ensures
        number_in(seq!['0'] + s) == number_in(s),
{
    let t = seq!['0'] + s;
    assert forall|i: int| 0 <= i < t.len() implies '0' <= #[trigger] t[i] <= '9' by {
        if i > 0 {
            assert(t[i] == s[i - 1]);
        }
    }
    assert(unsigned_digits(s) == s && unsigned_digits(t) == t) by {
        assert('0' <= s[0] <= '9');
    }
    lemma_zero_before(s);
}

proof fn lemma_zero_before(s: Seq<char>)
    ensures
        digits_value(seq!['0'] + s) == digits_value(s),
    decreases s.len(),
{
    let t = seq!['0'] + s;
    if s.len() == 0 {
        assert(t.drop_last() =~= Seq::<char>::empty());
        assert(t.last() == '0');
        assert(digits_value(t.drop_last()) == 0);
    } else {
        lemma_zero_before(s.drop_last());
        assert(t.drop_last() =~= seq!['0'] + s.drop_last());
        assert(t.last() == s.last());
    }
}

} // verus!
