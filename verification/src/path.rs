//! File paths: the text that a path is shown as, and the components that it is
//! compared by.

use vstd::prelude::*;

use crate::text;

verus! {

/// A component's rank in the order of paths: a drive prefix comes first, then the root,
/// the current directory, the parent directory, and a name.
pub const RANK_PREFIX: u8 = 0;

/// The rank of the root.
pub const RANK_ROOT: u8 = 1;

/// The rank of the current directory.
pub const RANK_CURRENT: u8 = 2;

/// The rank of the parent directory.
pub const RANK_PARENT: u8 = 3;

/// The rank of a name.
pub const RANK_NAME: u8 = 4;

/// One component of a path: its rank, and the bytes of a name or prefix.
#[derive(Debug)]
pub struct PathPart {
    pub rank: u8,
    pub bytes: Vec<u8>,
}

/// A path. Two paths are the same where their components are, however they are written.
#[derive(Debug)]
pub struct FilePath {
    pub text: String,
    pub parts: Vec<PathPart>,
}

/// A component as a value of mathematics.
pub struct PartForm {
    pub rank: u8,
    pub bytes: Seq<u8>,
}

/// A path as a value of mathematics.
pub struct PathForm {
    pub text: Seq<char>,
    pub parts: Seq<PartForm>,
}

impl View for PathPart {
    type V = PartForm;

    open spec fn view(&self) -> PartForm {
        PartForm { rank: self.rank, bytes: self.bytes@ }
    }
}

impl View for FilePath {
    type V = PathForm;

    open spec fn view(&self) -> PathForm {
        PathForm {
            text: self.text@,
            parts: self.parts@.map_values(|p: PathPart| p@),
        }
    }
}

/// The paths of a list.
pub open spec fn paths(v: Seq<FilePath>) -> Seq<PathForm> {
    v.map_values(|p: FilePath| p@)
}

// ---------------------------------------------------------------- order

/// Lexicographic order of bytes.
pub open spec fn bytes_before(a: Seq<u8>, b: Seq<u8>) -> bool
    decreases a.len(),
{
    if b.len() == 0 {
        false
    } else if a.len() == 0 {
        true
    } else if a[0] == b[0] {
        bytes_before(a.skip(1), b.skip(1))
    } else {
        a[0] < b[0]
    }
}

/// Order of components: by rank, then by bytes.
pub open spec fn part_before(a: PartForm, b: PartForm) -> bool {
    a.rank < b.rank || (a.rank == b.rank && bytes_before(a.bytes, b.bytes))
}

/// Order of paths: component by component.
pub open spec fn parts_before(a: Seq<PartForm>, b: Seq<PartForm>) -> bool
    decreases a.len(),
{
    if b.len() == 0 {
        false
    } else if a.len() == 0 {
        true
    } else if a[0] == b[0] {
        parts_before(a.skip(1), b.skip(1))
    } else {
        part_before(a[0], b[0])
    }
}

/// Of two different byte strings one comes before the other.
pub proof fn lemma_bytes_total(a: Seq<u8>, b: Seq<u8>)
    ensures
        a == b ==> !bytes_before(a, b),
        a != b ==> bytes_before(a, b) != bytes_before(b, a),
    decreases a.len(),
{
    if a.len() > 0 && b.len() > 0 && a[0] == b[0] {
        lemma_bytes_total(a.skip(1), b.skip(1));
        if a.skip(1) == b.skip(1) {
            assert(a =~= seq![a[0]] + a.skip(1));
            assert(b =~= seq![b[0]] + b.skip(1));
        }
    } else if a.len() == 0 && b.len() == 0 {
        assert(a =~= b);
    }
}

proof fn lemma_bytes_transitive(a: Seq<u8>, b: Seq<u8>, c: Seq<u8>)
    requires
        bytes_before(a, b),
        bytes_before(b, c),
    ensures
        bytes_before(a, c),
    decreases a.len(),
{
    if a.len() > 0 && a[0] == b[0] && b[0] == c[0] {
        lemma_bytes_transitive(a.skip(1), b.skip(1), c.skip(1));
    }
}

proof fn lemma_part_total(a: PartForm, b: PartForm)
    ensures
        a == b ==> !part_before(a, b),
        a != b ==> part_before(a, b) != part_before(b, a),
{
    lemma_bytes_total(a.bytes, b.bytes);
}

proof fn lemma_part_transitive(a: PartForm, b: PartForm, c: PartForm)
    requires
        part_before(a, b),
        part_before(b, c),
    ensures
        part_before(a, c),
{
    if a.rank == b.rank && b.rank == c.rank {
        lemma_bytes_transitive(a.bytes, b.bytes, c.bytes);
    }
}

/// No path stands before itself, and of two different paths exactly one stands before the
/// other.
pub proof fn lemma_parts_total(a: Seq<PartForm>, b: Seq<PartForm>)
    ensures
        a == b ==> !parts_before(a, b),
        a != b ==> parts_before(a, b) != parts_before(b, a),
    decreases a.len(),
{
    if a.len() > 0 && b.len() > 0 {
        if a[0] == b[0] {
            lemma_parts_total(a.skip(1), b.skip(1));
            if a.skip(1) == b.skip(1) {
                assert(a =~= seq![a[0]] + a.skip(1));
                assert(b =~= seq![b[0]] + b.skip(1));
            }
        } else {
            lemma_part_total(a[0], b[0]);
        }
    } else if a.len() == 0 && b.len() == 0 {
        assert(a =~= b);
    }
}

/// The order of paths is transitive.
pub proof fn lemma_parts_transitive(a: Seq<PartForm>, b: Seq<PartForm>, c: Seq<PartForm>)
    requires
        parts_before(a, b),
        parts_before(b, c),
    ensures
        parts_before(a, c),
    decreases a.len(),
{
    if a.len() > 0 {
        if a[0] == b[0] && b[0] == c[0] {
            lemma_parts_transitive(a.skip(1), b.skip(1), c.skip(1));
        } else if a[0] != b[0] && b[0] != c[0] {
            lemma_part_transitive(a[0], b[0], c[0]);
            lemma_part_total(a[0], c[0]);
        }
    }
}

// ---------------------------------------------------------------- comparing

fn same_bytes(a: &Vec<u8>, b: &Vec<u8>) -> (r: bool)
    ensures
        r == (a@ == b@),
{
    if a.len() != b.len() {
        return false;
    }
    let mut i: usize = 0;
    while i < a.len()
        invariant
            i <= a@.len(),
            a@.len() == b@.len(),
            forall|k: int| 0 <= k < i ==> a@[k] == b@[k],
        decreases a@.len() - i,
    {
        if a[i] != b[i] {
            return false;
        }
        i += 1;
    }
    assert(a@ =~= b@);
    true
}

fn is_bytes_before(a: &Vec<u8>, b: &Vec<u8>) -> (r: bool)
    ensures
        r == bytes_before(a@, b@),
{
    let mut i: usize = 0;
    assert(a@.skip(0) =~= a@);
    assert(b@.skip(0) =~= b@);
    while i < a.len() && i < b.len()
        invariant
            i <= a@.len(),
            i <= b@.len(),
            bytes_before(a@, b@) == bytes_before(a@.skip(i as int), b@.skip(i as int)),
        decreases a@.len() - i,
    {
        if a[i] != b[i] {
            return a[i] < b[i];
        }
        assert(a@.skip(i as int).skip(1) =~= a@.skip(i + 1));
        assert(b@.skip(i as int).skip(1) =~= b@.skip(i + 1));
        i += 1;
    }
    i < b.len()
}

impl PathPart {
    fn same(&self, other: &PathPart) -> (r: bool)
        ensures
            r == (self@ == other@),
    {
        self.rank == other.rank && same_bytes(&self.bytes, &other.bytes)
    }

    /// A copy of the component.
    pub fn copied(&self) -> (r: PathPart)
        ensures
            r@ == self@,
    {
        PathPart { rank: self.rank, bytes: vstd::slice::slice_to_vec(self.bytes.as_slice()) }
    }
}

impl FilePath {
    /// A copy of the path.
    pub fn copied(&self) -> (r: FilePath)
        ensures
            r@ == self@,
    {
        let mut parts: Vec<PathPart> = Vec::new();
        let mut i: usize = 0;
        while i < self.parts.len()
            invariant
                i <= self.parts@.len(),
                parts@.len() == i,
                forall|k: int| 0 <= k < i ==> (#[trigger] parts@[k])@ == self.parts@[k]@,
            decreases self.parts@.len() - i,
        {
            parts.push(self.parts[i].copied());
            i += 1;
        }
        let r = FilePath { text: self.text.as_str().to_owned(), parts };
        assert(r@.parts =~= self@.parts);
        r
    }

    /// Whether two paths have the same components.
    pub fn same(&self, other: &FilePath) -> (r: bool)
        ensures
            r == (self@.parts == other@.parts),
    {
        if self.parts.len() != other.parts.len() {
            assert(self@.parts.len() != other@.parts.len());
            return false;
        }
        let mut i: usize = 0;
        while i < self.parts.len()
            invariant
                i <= self.parts@.len(),
                self.parts@.len() == other.parts@.len(),
                forall|k: int| 0 <= k < i ==> #[trigger] self@.parts[k] == other@.parts[k],
            decreases self.parts@.len() - i,
        {
            if !self.parts[i].same(&other.parts[i]) {
                assert(self@.parts[i as int] != other@.parts[i as int]);
                return false;
            }
            i += 1;
        }
        assert(self@.parts =~= other@.parts);
        true
    }

    /// Whether this path stands before another.
    pub fn before(&self, other: &FilePath) -> (r: bool)
        ensures
            r == parts_before(self@.parts, other@.parts),
    {
        let ghost a = self@.parts;
        let ghost b = other@.parts;
        let mut i: usize = 0;
        assert(a.skip(0) =~= a);
        assert(b.skip(0) =~= b);
        while i < self.parts.len() && i < other.parts.len()
            invariant
                a == self@.parts,
                b == other@.parts,
                i <= a.len(),
                i <= b.len(),
                parts_before(a, b) == parts_before(a.skip(i as int), b.skip(i as int)),
            decreases self.parts@.len() - i,
        {
            let x = &self.parts[i];
            let y = &other.parts[i];
            assert(a.skip(i as int)[0] == x@);
            assert(b.skip(i as int)[0] == y@);
            if !x.same(y) {
                return x.rank < y.rank || (x.rank == y.rank && is_bytes_before(&x.bytes, &y.bytes));
            }
            assert(a.skip(i as int).skip(1) =~= a.skip(i + 1));
            assert(b.skip(i as int).skip(1) =~= b.skip(i + 1));
            i += 1;
        }
        i < other.parts.len()
    }

    /// The last component as text, where it is a name and UTF-8.
    pub fn file_name(&self) -> (r: Option<String>)
        ensures
            text::text_in(r) == name_of(self@),
    {
        if self.parts.len() == 0 {
            return None;
        }
        let last = &self.parts[self.parts.len() - 1];
        assert(self@.parts.last() == last@);
        if last.rank == RANK_NAME {
            text::utf8_text(last.bytes.as_slice())
        } else {
            None
        }
    }

    /// The last component as text, or a stock name.
    pub fn name_or(&self, stock: &str) -> (r: String)
        ensures
            r@ == name_or_spec(self@, stock@),
    {
        match self.file_name() {
            Some(name) => name,
            None => stock.to_owned(),
        }
    }
}

/// The text of bytes, with marks in place of what is not UTF-8, as `String::from_utf8_lossy`
/// gives it.
pub uninterp spec fn lossy(bytes: Seq<u8>) -> Seq<char>;

/// `String::from_utf8_lossy`. It names the text, and states that UTF-8 keeps its own text.
#[verifier::external_body]
fn lossy_text(bytes: &[u8]) -> (r: String)
    ensures
        r@ == lossy(bytes@),
        vstd::utf8::valid_utf8(bytes@) ==> r@ == vstd::utf8::decode_utf8(bytes@),
{
    String::from_utf8_lossy(bytes).into_owned()
}

/// What a path is called on the screen: its last component where it is a name, else all of it.
pub open spec fn title_of(p: PathForm) -> Seq<char> {
    if p.parts.len() > 0 && p.parts.last().rank == RANK_NAME {
        lossy(p.parts.last().bytes)
    } else {
        p.text
    }
}

impl FilePath {
    /// What the path is called on the screen.
    pub fn title(&self) -> (r: String)
        ensures
            r@ == title_of(self@),
    {
        if self.parts.len() > 0 {
            let last = &self.parts[self.parts.len() - 1];
            assert(self@.parts.last() == last@);
            if last.rank == RANK_NAME {
                return lossy_text(last.bytes.as_slice());
            }
        }
        self.text.as_str().to_owned()
    }
}

/// The last component of a path as text, where it is a name and UTF-8.
pub open spec fn name_of(p: PathForm) -> Option<Seq<char>> {
    if p.parts.len() > 0 && p.parts.last().rank == RANK_NAME && vstd::utf8::valid_utf8(
        p.parts.last().bytes,
    ) {
        Some(vstd::utf8::decode_utf8(p.parts.last().bytes))
    } else {
        None
    }
}

/// The last component of a path as text, or a stock name.
pub open spec fn name_or_spec(p: PathForm, stock: Seq<char>) -> Seq<char> {
    match name_of(p) {
        Some(name) => name,
        None => stock,
    }
}

// ---------------------------------------------------------------- laws

/// The first byte in which two rows of bytes differ decides which stands before the other; where there
/// is none, the shorter one does.
pub proof fn law_first_byte_decides(a: Seq<u8>, b: Seq<u8>, i: int)
    requires
        0 <= i <= a.len(),
        i <= b.len(),
        forall|k: int| 0 <= k < i ==> #[trigger] a[k] == b[k],
    ensures
        i < a.len() && i < b.len() && a[i] != b[i] ==> (bytes_before(a, b) <==> a[i] < b[i]),
        i == a.len() ==> (bytes_before(a, b) <==> a.len() < b.len()),
        i == b.len() ==> !bytes_before(a, b),
    decreases i,
{
    if i > 0 {
        let (x, y) = (a.skip(1), b.skip(1));
        assert(a[0] == b[0]);
        assert forall|k: int| 0 <= k < i - 1 implies #[trigger] x[k] == y[k] by {
            assert(a[k + 1] == b[k + 1]);
        }
        law_first_byte_decides(x, y, i - 1);
    }
}

/// The first component in which two paths differ decides which stands before the other, by its rank,
/// and within a rank by its bytes; where there is none, the shorter path does.
pub proof fn law_first_component_decides(a: Seq<PartForm>, b: Seq<PartForm>, i: int)
    requires
        0 <= i <= a.len(),
        i <= b.len(),
        forall|k: int| 0 <= k < i ==> #[trigger] a[k] == b[k],
    ensures
        i < a.len() && i < b.len() && a[i].rank != b[i].rank ==> (parts_before(a, b) <==> a[i].rank
            < b[i].rank),
        i < a.len() && i < b.len() && a[i].rank == b[i].rank && a[i] != b[i] ==> (parts_before(a, b)
            <==> bytes_before(a[i].bytes, b[i].bytes)),
        i == a.len() ==> (parts_before(a, b) <==> a.len() < b.len()),
        i == b.len() ==> !parts_before(a, b),
    decreases i,
{
    if i > 0 {
        let (x, y) = (a.skip(1), b.skip(1));
        assert(a[0] == b[0]);
        assert forall|k: int| 0 <= k < i - 1 implies #[trigger] x[k] == y[k] by {
            assert(a[k + 1] == b[k + 1]);
        }
        law_first_component_decides(x, y, i - 1);
    }
}

/// A path that ends with a name is shown by that name and has it where it is text; any other path is
/// shown whole and has none.
pub proof fn law_paths_are_named_by_their_end(p: PathForm, stock: Seq<char>)
    ensures
        ({
            let named = p.parts.len() > 0 && p.parts[p.parts.len() - 1].rank == 4;
            let bytes = p.parts[p.parts.len() - 1].bytes;
            &&& named ==> title_of(p) == lossy(bytes)
            &&& !named ==> title_of(p) == p.text
            &&& named && vstd::utf8::valid_utf8(bytes) ==> name_of(p) == Some(
                vstd::utf8::decode_utf8(bytes),
            ) && name_or_spec(p, stock) == vstd::utf8::decode_utf8(bytes)
            &&& !named || !vstd::utf8::valid_utf8(bytes) ==> name_of(p) is None && name_or_spec(
                p,
                stock,
            ) == stock
        }),
{
}

/// The components of a path have five ranks, of which a root stands before the directories and these
/// before the names.
pub proof fn law_ranks_are_in_order()
    ensures
        RANK_PREFIX == 0,
        RANK_ROOT == 1,
        RANK_CURRENT == 2,
        RANK_PARENT == 3,
        RANK_NAME == 4,
{
}

/// The paths of a list are those that it holds, in its order.
pub proof fn law_paths_are_those_held(v: Seq<FilePath>, i: int)
    ensures
        paths(v).len() == v.len(),
        0 <= i < v.len() ==> paths(v)[i] == v[i]@,
{
}

} // verus!
