//! Paths inside a work tree, their order, and sets of them.
//!
//! A path is the bytes that name it. Two paths are the same, and one comes
//! before another, by their components, as on Unix: repeated slashes, a
//! trailing slash and `.` components after the first make no difference.
use vstd::prelude::*;
use vstd::utf8::{decode_utf8, encode_utf8, valid_utf8};

verus! {

/// Decodes bytes with `String::from_utf8`: the text whose UTF-8 encoding the
/// bytes are, or nothing where they are not valid UTF-8.
#[verifier::external_body]
pub(crate) fn text_from_utf8(bytes: Vec<u8>) -> (r: Option<String>)
    ensures
        r is Some <==> valid_utf8(bytes@),
        r is Some ==> r->0@ == decode_utf8(bytes@),
{
    String::from_utf8(bytes).ok()
}

/// A path, as the bytes that name it.
#[derive(Debug, PartialEq, Eq)]
pub struct RepoPath {
    /// The bytes of the path.
    pub raw: Vec<u8>,
}

impl View for RepoPath {
    type V = Seq<u8>;

    open spec fn view(&self) -> Seq<u8> {
        self.raw@
    }
}

/// The rank of the root directory among components.
pub const ROOT_RANK: u8 = 1;

/// The rank of a leading `.` among components.
pub const HERE_RANK: u8 = 2;

/// The rank of `..` among components.
pub const UP_RANK: u8 = 3;

/// The rank of a name among components.
pub const NAME_RANK: u8 = 4;

/// The byte `/`.
pub const SLASH: u8 = 47;

/// The byte `.`.
pub const DOT: u8 = 46;

/// The bytes between the slashes of a path.
pub open spec fn path_pieces(p: Seq<u8>) -> Seq<Seq<u8>>
    decreases p.len(),
{
    if p.len() == 0 {
        seq![p]
    } else {
        let before = path_pieces(p.drop_last());
        if p.last() == SLASH {
            before.push(Seq::empty())
        } else {
            before.drop_last().push(before.last().push(p.last()))
        }
    }
}

/// The component that a piece stands for, if any: its rank, then its bytes.
/// An empty piece stands for none, and `.` only where it comes first.
pub open spec fn component(piece: Seq<u8>, first: bool) -> Option<Seq<u8>> {
    if piece.len() == 0 {
        None
    } else if piece == seq![DOT] {
        if first {
            Some(seq![HERE_RANK])
        } else {
            None
        }
    } else if piece == seq![DOT, DOT] {
        Some(seq![UP_RANK])
    } else {
        Some(seq![NAME_RANK] + piece)
    }
}

/// The components that a list of pieces stands for.
pub open spec fn piece_components(pieces: Seq<Seq<u8>>) -> Seq<Seq<u8>>
    decreases pieces.len(),
{
    if pieces.len() == 0 {
        Seq::empty()
    } else {
        let before = piece_components(pieces.drop_last());
        match component(pieces.last(), pieces.len() == 1) {
            Some(c) => before.push(c),
            None => before,
        }
    }
}

/// The components of a path, each as its rank followed by its bytes.
pub open spec fn components(p: Seq<u8>) -> Seq<Seq<u8>> {
    let named = piece_components(path_pieces(p));
    if p.len() > 0 && p[0] == SLASH {
        seq![seq![ROOT_RANK]] + named
    } else {
        named
    }
}

/// Whether two byte strings agree before `k`, and `a` is the smaller at `k`.
pub open spec fn bytes_part(a: Seq<u8>, b: Seq<u8>, k: int) -> bool {
    &&& 0 <= k <= a.len()
    &&& k < b.len()
    &&& forall|i: int| 0 <= i < k ==> a[i] == b[i]
    &&& k == a.len() || a[k] < b[k]
}

/// The order of byte strings.
pub open spec fn bytes_less(a: Seq<u8>, b: Seq<u8>) -> bool {
    exists|k: int| bytes_part(a, b, k)
}

/// Whether two lists of components agree before `k`, and `a` is the smaller at `k`.
pub open spec fn components_part(a: Seq<Seq<u8>>, b: Seq<Seq<u8>>, k: int) -> bool {
    &&& 0 <= k <= a.len()
    &&& k < b.len()
    &&& forall|i: int| 0 <= i < k ==> a[i] == b[i]
    &&& k == a.len() || bytes_less(a[k], b[k])
}

/// The order of lists of components.
pub open spec fn components_less(a: Seq<Seq<u8>>, b: Seq<Seq<u8>>) -> bool {
    exists|k: int| components_part(a, b, k)
}

/// Whether path `a` comes before path `b`.
pub open spec fn path_less(a: Seq<u8>, b: Seq<u8>) -> bool {
    components_less(components(a), components(b))
}

/// Whether two byte strings name the same path.
pub open spec fn same_path(a: Seq<u8>, b: Seq<u8>) -> bool {
    components(a) == components(b)
}

proof fn lemma_bytes_less_irreflexive(a: Seq<u8>, b: Seq<u8>)
    requires
        bytes_less(a, b),
    ensures
        a != b,
        !bytes_less(b, a),
{
    let k = choose|k: int| bytes_part(a, b, k);
    if bytes_less(b, a) {
        let j = choose|j: int| bytes_part(b, a, j);
        if j < k {
            assert(a[j] == b[j]);
        } else if k < j {
            assert(a[k] == b[k]);
        }
    }
}

proof fn lemma_bytes_less_transitive(a: Seq<u8>, b: Seq<u8>, c: Seq<u8>)
    requires
        bytes_less(a, b),
        bytes_less(b, c),
    ensures
        bytes_less(a, c),
{
    let k = choose|k: int| bytes_part(a, b, k);
    let j = choose|j: int| bytes_part(b, c, j);
    let m = if k < j {
        k
    } else {
        j
    };
    assert(bytes_part(a, c, m));
}

/// Of two paths, one never comes both before and after the other, nor before
/// itself under another spelling.
pub proof fn law_path_order_is_strict(a: Seq<u8>, b: Seq<u8>)
    requires
        path_less(a, b),
    ensures
        !same_path(a, b),
        !path_less(b, a),
{
    let x = components(a);
    let y = components(b);
    let k = choose|k: int| components_part(x, y, k);
    if k < x.len() {
        lemma_bytes_less_irreflexive(x[k], y[k]);
    }
    if path_less(b, a) {
        let j = choose|j: int| components_part(y, x, j);
        if j < y.len() {
            lemma_bytes_less_irreflexive(y[j], x[j]);
        }
        if j < k {
            assert(x[j] == y[j]);
        } else if k < j {
            assert(x[k] == y[k]);
        }
    }
}

/// The order of paths is transitive.
pub proof fn law_path_order_is_transitive(a: Seq<u8>, b: Seq<u8>, c: Seq<u8>)
    requires
        path_less(a, b),
        path_less(b, c),
    ensures
        path_less(a, c),
{
    let x = components(a);
    let y = components(b);
    let z = components(c);
    let k = choose|k: int| components_part(x, y, k);
    let j = choose|j: int| components_part(y, z, j);
    let m = if k < j {
        k
    } else {
        j
    };
    if k == j && k < x.len() {
        lemma_bytes_less_transitive(x[k], y[k], z[k]);
    }
    assert(components_part(x, z, m));
}

/// Whether a list of paths names `p`.
pub open spec fn names_path(list: Seq<Seq<u8>>, p: Seq<u8>) -> bool {
    exists|i: int| 0 <= i < list.len() && same_path(#[trigger] list[i], p)
}

/// Whether a list of paths stands in order, with no path named twice.
pub open spec fn ordered(list: Seq<Seq<u8>>) -> bool {
    forall|i: int, j: int| 0 <= i < j < list.len() ==> path_less(#[trigger] list[i], #[trigger] list[j])
}

/// An ordered list with `p` put in its place. A path that the list already
/// names stays as it is spelled there.
pub open spec fn inserted(list: Seq<Seq<u8>>, p: Seq<u8>) -> Seq<Seq<u8>>
    decreases list.len(),
{
    if list.len() == 0 {
        seq![p]
    } else if same_path(list.last(), p) {
        list
    } else if path_less(list.last(), p) {
        list.push(p)
    } else {
        inserted(list.drop_last(), p).push(list.last())
    }
}

/// The ordered list of the paths of `list`, each in its first spelling.
pub open spec fn collected(list: Seq<Seq<u8>>) -> Seq<Seq<u8>>
    decreases list.len(),
{
    if list.len() == 0 {
        Seq::empty()
    } else {
        inserted(collected(list.drop_last()), list.last())
    }
}

/// The bytes of a list of paths.
pub open spec fn raw_paths(list: Seq<RepoPath>) -> Seq<Seq<u8>> {
    Seq::new(list.len(), |i: int| list[i]@)
}

/// The paths that a list of texts spells.
pub open spec fn spelled(list: Seq<Seq<char>>) -> Seq<Seq<u8>> {
    Seq::new(list.len(), |i: int| encode_utf8(list[i]))
}

proof fn lemma_inserted_at(list: Seq<Seq<u8>>, p: Seq<u8>, at: int)
    requires
        ordered(list),
        0 <= at <= list.len(),
        forall|i: int| 0 <= i < at ==> path_less(#[trigger] list[i], p),
        at < list.len() ==> same_path(list[at], p) || path_less(p, list[at]),
    ensures
        at < list.len() && same_path(list[at], p) ==> inserted(list, p) == list,
        !(at < list.len() && same_path(list[at], p)) ==> inserted(list, p) == list.insert(at, p),
    decreases list.len(),
{
    if list.len() == 0 {
        assert(list.insert(at, p) == seq![p]);
    } else {
        let last = list.last();
        let rest = list.drop_last();
        if at == list.len() {
            assert(path_less(list[list.len() - 1], p));
            law_path_order_is_strict(last, p);
            assert(list.insert(at, p) == list.push(p));
        } else {
            if at < list.len() - 1 {
                assert(path_less(list[at], list[list.len() - 1]));
                if same_path(list[at], p) {
                    assert(path_less(p, last));
                } else {
                    law_path_order_is_transitive(p, list[at], last);
                }
                law_path_order_is_strict(p, last);
                lemma_inserted_at(rest, p, at);
            } else if !same_path(last, p) {
                law_path_order_is_strict(p, last);
                lemma_inserted_at(rest, p, at);
            }
            if !same_path(list[at], p) {
                assert(list.insert(at, p) == rest.insert(at, p).push(last));
            } else {
                assert(rest.push(last) == list);
            }
        }
    }
}

/// A set of paths, held in order.
#[derive(Debug)]
pub struct PathSet {
    /// The paths, in order.
    pub items: Vec<RepoPath>,
}

impl View for PathSet {
    type V = Seq<Seq<u8>>;

    open spec fn view(&self) -> Seq<Seq<u8>> {
        raw_paths(self.items@)
    }
}

/// How two paths stand to each other.
#[derive(Clone, Copy, PartialEq, Eq, Structural, Debug)]
pub enum Place {
    /// The first comes before the second.
    Before,
    /// Both name the same path.
    Same,
    /// The first comes after the second.
    After,
}

/// Splits a path at its slashes.
fn split_path(p: &Vec<u8>) -> (r: Vec<Vec<u8>>)
    ensures
        Seq::new(r@.len(), |i: int| r@[i]@) == path_pieces(p@),
        r@.len() > 0,
{
    let mut done: Vec<Vec<u8>> = Vec::new();
    let mut current: Vec<u8> = Vec::new();
    let mut i: usize = 0;
    proof {
        assert(p@.take(0) == Seq::<u8>::empty());
        assert(Seq::new(done@.len(), |k: int| done@[k]@).push(current@) == path_pieces(
            p@.take(0),
        ));
    }
    while i < p.len()
        invariant
            i <= p.len(),
            Seq::new(done@.len(), |k: int| done@[k]@).push(current@) == path_pieces(
                p@.take(i as int),
            ),
        decreases p.len() - i,
    {
        let ghost upto = p@.take(i + 1);
        let ghost was = Seq::new(done@.len(), |k: int| done@[k]@);
        proof {
            assert(upto.drop_last() == p@.take(i as int));
            assert(was.push(current@).drop_last() == was);
        }
        let b: u8 = p[i];
        if b == SLASH {
            let ghost piece = current@;
            done.push(current);
            current = Vec::new();
            proof {
                assert(Seq::new(done@.len(), |k: int| done@[k]@) == was.push(piece));
            }
        } else {
            current.push(b);
        }
        i += 1;
    }
    let ghost was = Seq::new(done@.len(), |k: int| done@[k]@);
    let ghost piece = current@;
    done.push(current);
    proof {
        assert(Seq::new(done@.len(), |k: int| done@[k]@) == was.push(piece));
        assert(p@.take(p@.len() as int) == p@);
    }
    done
}

/// Reads the component that a piece stands for.
fn component_of(piece: &Vec<u8>, first: bool) -> (r: Option<Vec<u8>>)
    ensures
        match r {
            Some(c) => component(piece@, first) == Some(c@),
            None => component(piece@, first) is None,
        },
{
    if piece.len() == 0 {
        return None;
    }
    if piece.len() == 1 && piece[0] == DOT {
        proof {
            assert(piece@ == seq![DOT]);
        }
        return if first {
            let mut c: Vec<u8> = Vec::new();
            c.push(HERE_RANK);
            proof {
                assert(c@ == seq![HERE_RANK]);
            }
            Some(c)
        } else {
            None
        };
    }
    if piece.len() == 2 && piece[0] == DOT && piece[1] == DOT {
        proof {
            assert(piece@ == seq![DOT, DOT]);
        }
        let mut c: Vec<u8> = Vec::new();
        c.push(UP_RANK);
        proof {
            assert(c@ == seq![UP_RANK]);
        }
        return Some(c);
    }
    let mut c: Vec<u8> = Vec::new();
    c.push(NAME_RANK);
    let mut i: usize = 0;
    while i < piece.len()
        invariant
            i <= piece.len(),
            c@ == seq![NAME_RANK] + piece@.take(i as int),
        decreases piece.len() - i,
    {
        c.push(piece[i]);
        i += 1;
        proof {
            assert(piece@.take(i as int) == piece@.take(i - 1).push(piece@[i - 1]));
        }
    }
    proof {
        assert(piece@.take(piece@.len() as int) == piece@);
        assert(c@ == seq![NAME_RANK] + piece@);
    }
    Some(c)
}

/// Reads the components of a path.
pub(crate) fn components_of(p: &Vec<u8>) -> (r: Vec<Vec<u8>>)
    ensures
        Seq::new(r@.len(), |i: int| r@[i]@) == components(p@),
{
    let pieces = split_path(p);
    let ghost all = path_pieces(p@);
    let mut out: Vec<Vec<u8>> = Vec::new();
    let ghost mut head: Seq<Seq<u8>> = Seq::empty();
    if p.len() > 0 && p[0] == SLASH {
        let mut root: Vec<u8> = Vec::new();
        root.push(ROOT_RANK);
        proof {
            assert(root@ == seq![ROOT_RANK]);
            head = seq![seq![ROOT_RANK]];
        }
        out.push(root);
    }
    let mut i: usize = 0;
    proof {
        assert(Seq::new(out@.len(), |k: int| out@[k]@) == head + piece_components(all.take(0)));
    }
    while i < pieces.len()
        invariant
            i <= pieces.len(),
            all == Seq::new(pieces@.len(), |k: int| pieces@[k]@),
            Seq::new(out@.len(), |k: int| out@[k]@) == head + piece_components(
                all.take(i as int),
            ),
        decreases pieces.len() - i,
    {
        let ghost was = Seq::new(out@.len(), |k: int| out@[k]@);
        proof {
            assert(all.take(i + 1).drop_last() == all.take(i as int));
            assert(all.take(i + 1).last() == pieces@[i as int]@);
        }
        let found = component_of(&pieces[i], i == 0);
        if let Some(c) = found {
            let ghost text = c@;
            out.push(c);
            proof {
                assert(Seq::new(out@.len(), |k: int| out@[k]@) == was.push(text));
                assert(was.push(text) == head + piece_components(all.take(i as int)).push(text));
            }
        }
        i += 1;
    }
    proof {
        assert(all.take(all.len() as int) == all);
        assert(Seq::<Seq<u8>>::empty() + piece_components(all) == piece_components(all));
    }
    out
}

/// Compares two byte strings.
fn place_bytes(a: &Vec<u8>, b: &Vec<u8>) -> (r: Place)
    ensures
        r is Before <==> bytes_less(a@, b@),
        r is Same <==> a@ == b@,
        r is After <==> bytes_less(b@, a@),
{
    let mut k: usize = 0;
    while k < a.len() && k < b.len() && a[k] == b[k]
        invariant
            k <= a.len(),
            k <= b.len(),
            forall|i: int| 0 <= i < k ==> a@[i] == b@[i],
        decreases a.len() - k,
    {
        k += 1;
    }
    if k == a.len() && k == b.len() {
        proof {
            assert(a@ == b@);
            if bytes_less(a@, b@) {
                lemma_bytes_less_irreflexive(a@, b@);
            }
            if bytes_less(b@, a@) {
                lemma_bytes_less_irreflexive(b@, a@);
            }
        }
        Place::Same
    } else if k == a.len() || (k < b.len() && a[k] < b[k]) {
        proof {
            assert(bytes_part(a@, b@, k as int));
            lemma_bytes_less_irreflexive(a@, b@);
        }
        Place::Before
    } else {
        proof {
            assert(bytes_part(b@, a@, k as int));
            lemma_bytes_less_irreflexive(b@, a@);
        }
        Place::After
    }
}

impl RepoPath {
    /// The path that a text spells.
    pub fn from_text(s: &str) -> (r: RepoPath)
        ensures
            r@ == encode_utf8(s@),
    {
        RepoPath { raw: s.as_bytes_vec() }
    }

    /// The text that spells this path, if its bytes are valid UTF-8.
    pub fn to_text(&self) -> (r: Option<String>)
        ensures
            r is Some <==> valid_utf8(self@),
            r is Some ==> r->0@ == decode_utf8(self@),
    {
        text_from_utf8(copy_bytes(&self.raw))
    }

    /// A copy of this path.
    pub fn copy(&self) -> (r: RepoPath)
        ensures
            r@ == self@,
    {
        RepoPath { raw: copy_bytes(&self.raw) }
    }

    /// Tells how this path stands to another.
    pub fn place(&self, other: &RepoPath) -> (r: Place)
        ensures
            r is Before <==> path_less(self@, other@),
            r is Same <==> same_path(self@, other@),
            r is After <==> path_less(other@, self@),
    {
        let a = components_of(&self.raw);
        let b = components_of(&other.raw);
        let ghost x = components(self@);
        let ghost y = components(other@);
        let mut k: usize = 0;
        while k < a.len() && k < b.len()
            invariant
                k <= a.len(),
                k <= b.len(),
                x == Seq::new(a@.len(), |i: int| a@[i]@),
                y == Seq::new(b@.len(), |i: int| b@[i]@),
                x == components(self@),
                y == components(other@),
                forall|i: int| 0 <= i < k ==> x[i] == y[i],
            decreases a.len() - k,
        {
            let here = place_bytes(&a[k], &b[k]);
            match here {
                Place::Same => {},
                Place::Before => {
                    proof {
                        assert(components_part(x, y, k as int));
                        law_path_order_is_strict(self@, other@);
                    }
                    return Place::Before;
                },
                Place::After => {
                    proof {
                        assert(components_part(y, x, k as int));
                        law_path_order_is_strict(other@, self@);
                    }
                    return Place::After;
                },
            }
            k += 1;
        }
        if a.len() == b.len() {
            proof {
                assert(x == y);
                if path_less(self@, other@) {
                    law_path_order_is_strict(self@, other@);
                }
                if path_less(other@, self@) {
                    law_path_order_is_strict(other@, self@);
                }
            }
            Place::Same
        } else if a.len() < b.len() {
            proof {
                assert(components_part(x, y, k as int));
                law_path_order_is_strict(self@, other@);
            }
            Place::Before
        } else {
            proof {
                assert(components_part(y, x, k as int));
                law_path_order_is_strict(other@, self@);
            }
            Place::After
        }
    }

    /// Tells whether two paths are the same.
    pub fn names_same(&self, other: &RepoPath) -> (r: bool)
        ensures
            r == same_path(self@, other@),
    {
        match self.place(other) {
            Place::Same => true,
            _ => false,
        }
    }
}

/// Appends bytes to bytes.
pub fn append_bytes(to: &mut Vec<u8>, from: &Vec<u8>)
    ensures
        final(to)@ == old(to)@ + from@,
{
    let ghost start = to@;
    let mut i: usize = 0;
    proof {
        assert(to@ == start + from@.take(0));
    }
    while i < from.len()
        invariant
            i <= from.len(),
            to@ == start + from@.take(i as int),
        decreases from.len() - i,
    {
        to.push(from[i]);
        i += 1;
        proof {
            assert(from@.take(i as int) == from@.take(i - 1).push(from@[i - 1]));
        }
    }
    proof {
        assert(from@.take(from@.len() as int) == from@);
    }
}

/// A copy of some bytes.
pub fn copy_bytes(from: &Vec<u8>) -> (r: Vec<u8>)
    ensures
        r@ == from@,
{
    let mut r: Vec<u8> = Vec::new();
    append_bytes(&mut r, from);
    r
}

/// A copy of a list of paths.
pub fn copy_paths(from: &Vec<RepoPath>) -> (r: Vec<RepoPath>)
    ensures
        raw_paths(r@) == raw_paths(from@),
{
    let mut r: Vec<RepoPath> = Vec::new();
    let mut i: usize = 0;
    while i < from.len()
        invariant
            i <= from.len(),
            r.len() == i,
            forall|k: int| 0 <= k < i ==> (#[trigger] r@[k])@ == from@[k]@,
        decreases from.len() - i,
    {
        r.push(from[i].copy());
        i += 1;
    }
    r
}

/// The paths that a list of texts spells.
pub fn paths_of(list: &Vec<String>) -> (r: Vec<RepoPath>)
    ensures
        raw_paths(r@) == spelled(crate::text::texts(list@)),
{
    let mut r: Vec<RepoPath> = Vec::new();
    let mut i: usize = 0;
    while i < list.len()
        invariant
            i <= list.len(),
            r.len() == i,
            forall|k: int| 0 <= k < i ==> (#[trigger] r@[k])@ == encode_utf8(list@[k]@),
        decreases list.len() - i,
    {
        r.push(RepoPath::from_text(list[i].as_str()));
        i += 1;
    }
    r
}

impl PathSet {
    /// Whether the paths stand in order, none of them twice.
    pub open spec fn wf(&self) -> bool {
        ordered(self@)
    }

    /// The set without paths.
    pub fn new() -> (r: PathSet)
        ensures
            r@ == Seq::<Seq<u8>>::empty(),
            r.wf(),
    {
        let r = PathSet { items: Vec::new() };
        proof {
            assert(r@ == Seq::<Seq<u8>>::empty());
        }
        r
    }

    /// The place where `p` is, or belongs.
    fn seek(&self, p: &RepoPath) -> (at: usize)
        requires
            self.wf(),
        ensures
            at <= self.items.len(),
            forall|i: int| 0 <= i < at ==> path_less(#[trigger] self@[i], p@),
            at < self.items.len() ==> same_path(self@[at as int], p@) || path_less(
                p@,
                self@[at as int],
            ),
    {
        let mut at: usize = 0;
        while at < self.items.len()
            invariant
                at <= self.items.len(),
                forall|i: int| 0 <= i < at ==> path_less(#[trigger] self@[i], p@),
            decreases self.items.len() - at,
        {
            match self.items[at].place(p) {
                Place::Before => {
                    proof {
                        assert(path_less(self@[at as int], p@));
                    }
                },
                _ => {
                    proof {
                        assert(self@[at as int] == self.items@[at as int]@);
                    }
                    return at;
                },
            }
            at += 1;
        }
        at
    }

    /// Puts a path into the set. One that the set already names stays as it
    /// is spelled there.
    pub fn insert(&mut self, p: RepoPath)
        requires
            old(self).wf(),
        ensures
            final(self).wf(),
            final(self)@ == inserted(old(self)@, p@),
    {
        let at = self.seek(&p);
        let ghost before = self@;
        proof {
            lemma_inserted_at(before, p@, at as int);
        }
        if at < self.items.len() && self.items[at].names_same(&p) {
            proof {
                assert(same_path(before[at as int], p@));
            }
            return;
        }
        let ghost path = p@;
        proof {
            if at < before.len() {
                assert(before[at as int] == self.items@[at as int]@);
            }
        }
        self.items.insert(at, p);
        proof {
            assert(self@ == before.insert(at as int, path));
            assert forall|i: int, j: int| 0 <= i < j < self@.len() implies path_less(
                #[trigger] self@[i],
                #[trigger] self@[j],
            ) by {
                let a = at as int;
                if i < a && j == a {
                    assert(path_less(before[i], path));
                } else if i == a {
                    assert(path_less(path, before[a]));
                    if j > a + 1 {
                        assert(path_less(before[a], before[j - 1]));
                        law_path_order_is_transitive(path, before[a], before[j - 1]);
                    }
                } else {
                    let x = if i < a {
                        i
                    } else {
                        i - 1
                    };
                    let y = if j < a {
                        j
                    } else {
                        j - 1
                    };
                    assert(path_less(before[x], before[y]));
                }
            }
        }
    }

    /// Tells whether the set names a path.
    pub fn contains(&self, p: &RepoPath) -> (r: bool)
        ensures
            r == names_path(self@, p@),
    {
        let mut i: usize = 0;
        while i < self.items.len()
            invariant
                i <= self.items.len(),
                forall|k: int| 0 <= k < i ==> !same_path(#[trigger] self@[k], p@),
            decreases self.items.len() - i,
        {
            if self.items[i].names_same(p) {
                proof {
                    assert(same_path(self@[i as int], p@));
                }
                return true;
            }
            proof {
                assert(!same_path(self@[i as int], p@));
            }
            i += 1;
        }
        false
    }

    /// Puts a list of paths into the set, one after another.
    pub fn extend(&mut self, list: &Vec<RepoPath>)
        requires
            old(self).wf(),
        ensures
            final(self).wf(),
            final(self)@ == inserted_all(old(self)@, raw_paths(list@)),
    {
        let ghost start = self@;
        let ghost all = raw_paths(list@);
        let mut i: usize = 0;
        proof {
            assert(inserted_all(start, all.take(0)) == start);
        }
        while i < list.len()
            invariant
                i <= list.len(),
                self.wf(),
                all == raw_paths(list@),
                self@ == inserted_all(start, all.take(i as int)),
            decreases list.len() - i,
        {
            self.insert(list[i].copy());
            i += 1;
            proof {
                assert(all.take(i as int).drop_last() == all.take(i - 1));
                assert(all.take(i as int).last() == list@[i - 1]@);
            }
        }
        proof {
            assert(all.take(all.len() as int) == all);
        }
    }

    /// The set of the paths of a list.
    pub fn collect(list: &Vec<RepoPath>) -> (r: PathSet)
        ensures
            r.wf(),
            r@ == collected(raw_paths(list@)),
    {
        let mut r = PathSet::new();
        r.extend(list);
        proof {
            lemma_inserted_all_collects(raw_paths(list@));
        }
        r
    }

    /// A copy of the set.
    pub fn copy(&self) -> (r: PathSet)
        ensures
            r@ == self@,
            self.wf() ==> r.wf(),
    {
        PathSet { items: copy_paths(&self.items) }
    }
}

/// An ordered list with the paths of `more` put in, one after another.
pub open spec fn inserted_all(list: Seq<Seq<u8>>, more: Seq<Seq<u8>>) -> Seq<Seq<u8>>
    decreases more.len(),
{
    if more.len() == 0 {
        list
    } else {
        inserted(inserted_all(list, more.drop_last()), more.last())
    }
}

pub proof fn lemma_inserted_all_collects(list: Seq<Seq<u8>>)
    ensures
        inserted_all(Seq::empty(), list) == collected(list),
    decreases list.len(),
{
    if list.len() > 0 {
        lemma_inserted_all_collects(list.drop_last());
    }
}

proof fn lemma_inserted_names(list: Seq<Seq<u8>>, p: Seq<u8>, q: Seq<u8>)
    ensures
        names_path(inserted(list, p), q) <==> names_path(list, q) || same_path(p, q),
    decreases list.len(),
{
    if list.len() == 0 {
        let one = seq![p];
        assert(one[0] == p);
        if same_path(p, q) {
            assert(same_path(one[0], q));
        }
    } else {
        let last = list.last();
        let rest = list.drop_last();
        let grown = inserted(list, p);
        if same_path(last, p) {
            if same_path(p, q) {
                assert(same_path(list[list.len() - 1], q));
            }
        } else if path_less(last, p) {
            assert(grown[list.len() as int] == p);
            if names_path(list, q) {
                let i = choose|i: int| 0 <= i < list.len() && same_path(#[trigger] list[i], q);
                assert(same_path(grown[i], q));
            }
            if names_path(grown, q) {
                let i = choose|i: int| 0 <= i < grown.len() && same_path(#[trigger] grown[i], q);
                if i < list.len() {
                    assert(same_path(list[i], q));
                }
            }
        } else {
            lemma_inserted_names(rest, p, q);
            let below = inserted(rest, p);
            assert(grown == below.push(last));
            if names_path(grown, q) {
                let i = choose|i: int| 0 <= i < grown.len() && same_path(#[trigger] grown[i], q);
                if i < below.len() {
                    assert(same_path(below[i], q));
                    if names_path(rest, q) {
                        let j = choose|j: int|
                            0 <= j < rest.len() && same_path(#[trigger] rest[j], q);
                        assert(same_path(list[j], q));
                    }
                } else {
                    assert(same_path(list[list.len() - 1], q));
                }
            }
            if names_path(list, q) || same_path(p, q) {
                if names_path(list, q) {
                    let i = choose|i: int| 0 <= i < list.len() && same_path(#[trigger] list[i], q);
                    if i < rest.len() {
                        assert(same_path(rest[i], q));
                    } else {
                        assert(same_path(grown[below.len() as int], q));
                    }
                }
                if names_path(below, q) {
                    let i = choose|i: int| 0 <= i < below.len() && same_path(#[trigger] below[i], q);
                    assert(same_path(grown[i], q));
                }
            }
        }
    }
}

/// A collected set names exactly the paths of the list that it was made from.
pub proof fn law_collected_names(list: Seq<Seq<u8>>, p: Seq<u8>)
    ensures
        names_path(collected(list), p) <==> names_path(list, p),
    decreases list.len(),
{
    if list.len() > 0 {
        let rest = list.drop_last();
        law_collected_names(rest, p);
        lemma_inserted_names(collected(rest), list.last(), p);
        if names_path(list, p) {
            let i = choose|i: int| 0 <= i < list.len() && same_path(#[trigger] list[i], p);
            if i < rest.len() {
                assert(same_path(rest[i], p));
            }
        }
        if names_path(rest, p) {
            let i = choose|i: int| 0 <= i < rest.len() && same_path(#[trigger] rest[i], p);
            assert(same_path(list[i], p));
        }
        if same_path(list.last(), p) {
            assert(same_path(list[list.len() - 1], p));
        }
    }
}

proof fn lemma_bytes_total(a: Seq<u8>, b: Seq<u8>, k: int)
    requires
        0 <= k <= a.len(),
        k <= b.len(),
        forall|i: int| 0 <= i < k ==> a[i] == b[i],
    ensures
        bytes_less(a, b) || a == b || bytes_less(b, a),
    decreases a.len() - k,
{
    if k == a.len() && k == b.len() {
        assert(a == b);
    } else if k == a.len() || (k < b.len() && a[k] < b[k]) {
        assert(bytes_part(a, b, k));
    } else if k == b.len() || b[k] < a[k] {
        assert(bytes_part(b, a, k));
    } else {
        lemma_bytes_total(a, b, k + 1);
    }
}

proof fn lemma_components_total(a: Seq<Seq<u8>>, b: Seq<Seq<u8>>, k: int)
    requires
        0 <= k <= a.len(),
        k <= b.len(),
        forall|i: int| 0 <= i < k ==> a[i] == b[i],
    ensures
        components_less(a, b) || a == b || components_less(b, a),
    decreases a.len() - k,
{
    if k == a.len() && k == b.len() {
        assert(a == b);
    } else if k == a.len() {
        assert(components_part(a, b, k));
    } else if k == b.len() {
        assert(components_part(b, a, k));
    } else {
        lemma_bytes_total(a[k], b[k], 0);
        if bytes_less(a[k], b[k]) {
            assert(components_part(a, b, k));
        } else if bytes_less(b[k], a[k]) {
            assert(components_part(b, a, k));
        } else {
            lemma_components_total(a, b, k + 1);
        }
    }
}

/// Of two paths that are not the same, one comes before the other.
pub proof fn law_path_order_is_total(a: Seq<u8>, b: Seq<u8>)
    ensures
        path_less(a, b) || same_path(a, b) || path_less(b, a),
{
    lemma_components_total(components(a), components(b), 0);
}

proof fn lemma_inserted_keeps_order(list: Seq<Seq<u8>>, p: Seq<u8>)
    requires
        ordered(list),
    ensures
        ordered(inserted(list, p)),
        forall|i: int|
            0 <= i < inserted(list, p).len() ==> #[trigger] inserted(list, p)[i] == p
                || list.contains(inserted(list, p)[i]),
    decreases list.len(),
{
    let grown = inserted(list, p);
    if list.len() > 0 {
        let last = list.last();
        let rest = list.drop_last();
        assert(list[list.len() - 1] == last);
        if same_path(last, p) {
        } else if path_less(last, p) {
            assert forall|i: int, j: int| 0 <= i < j < grown.len() implies path_less(
                #[trigger] grown[i],
                #[trigger] grown[j],
            ) by {
                if j == list.len() && i < list.len() - 1 {
                    law_path_order_is_transitive(list[i], list[list.len() - 1], p);
                }
            }
            assert forall|i: int| 0 <= i < grown.len() implies #[trigger] grown[i] == p
                || list.contains(grown[i]) by {
                if i < list.len() {
                    assert(grown[i] == list[i]);
                }
            }
        } else {
            law_path_order_is_total(last, p);
            lemma_inserted_keeps_order(rest, p);
            let below = inserted(rest, p);
            assert forall|i: int| 0 <= i < below.len() implies path_less(
                #[trigger] below[i],
                last,
            ) by {
                if below[i] != p {
                    let k = choose|k: int| 0 <= k < rest.len() && rest[k] == below[i];
                    assert(path_less(list[k], list[list.len() - 1]));
                }
            }
            assert forall|i: int| 0 <= i < grown.len() implies #[trigger] grown[i] == p
                || list.contains(grown[i]) by {
                if i < below.len() {
                    assert(grown[i] == below[i]);
                    if below[i] != p {
                        let k = choose|k: int| 0 <= k < rest.len() && rest[k] == below[i];
                        assert(list[k] == grown[i]);
                    }
                } else {
                    assert(list[list.len() - 1] == grown[i]);
                }
            }
        }
    }
}

/// A collected set stands in order, with no path named twice.
pub proof fn law_collected_is_ordered(list: Seq<Seq<u8>>)
    ensures
        ordered(collected(list)),
    decreases list.len(),
{
    if list.len() > 0 {
        law_collected_is_ordered(list.drop_last());
        lemma_inserted_keeps_order(collected(list.drop_last()), list.last());
    }
}

/// A slash parts the pieces before it from those after it, and a path without
/// slashes is one piece.
pub proof fn law_a_slash_parts_a_path(a: Seq<u8>, b: Seq<u8>)
    ensures
        path_pieces(a.push(SLASH) + b) == path_pieces(a) + path_pieces(b),
        !b.contains(SLASH) ==> path_pieces(b) == seq![b],
    decreases b.len(),
{
    let s = a.push(SLASH) + b;
    if b.len() == 0 {
        assert(s == a.push(SLASH));
        assert(s.drop_last() == a);
        assert(b == Seq::<u8>::empty());
        assert(path_pieces(b) == seq![b]);
    } else {
        let t = b.drop_last();
        assert(s.drop_last() == a.push(SLASH) + t);
        assert(s.last() == b.last());
        law_a_slash_parts_a_path(a, t);
        lemma_pieces_some(t);
        let x = path_pieces(a);
        let y = path_pieces(t);
        assert((x + y).last() == y.last());
        assert((x + y).drop_last() == x + y.drop_last());
        if !b.contains(SLASH) {
            assert(b[b.len() - 1] != SLASH);
            assert forall|i: int| 0 <= i < t.len() implies t[i] != SLASH by {
                assert(t[i] == b[i]);
            }
            assert(t.push(b.last()) == b);
        }
    }
}

proof fn lemma_pieces_some(p: Seq<u8>)
    ensures
        path_pieces(p).len() > 0,
    decreases p.len(),
{
    if p.len() > 0 {
        lemma_pieces_some(p.drop_last());
    }
}

/// What a path without slashes names: nothing, the directory itself, the one
/// above it, or a name in it.
pub proof fn law_components_of_one_piece(piece: Seq<u8>)
    requires
        !piece.contains(SLASH),
    ensures
        components(piece) == (if piece.len() == 0 {
            Seq::empty()
        } else if piece == seq![DOT] {
            seq![seq![HERE_RANK]]
        } else if piece == seq![DOT, DOT] {
            seq![seq![UP_RANK]]
        } else {
            seq![seq![NAME_RANK] + piece]
        }),
{
    law_a_slash_parts_a_path(Seq::empty(), piece);
    let pieces = seq![piece];
    assert(pieces.drop_last() == Seq::<Seq<u8>>::empty());
    reveal_with_fuel(piece_components, 2);
    if piece.len() > 0 {
        assert(piece[0] != SLASH);
    }
}

/// What a piece adds behind a slash: a step up or a name, and nothing where it
/// is empty or `.`. A leading slash stands for the root.
pub proof fn law_a_piece_adds_a_component(start: Seq<u8>, piece: Seq<u8>)
    requires
        !piece.contains(SLASH),
    ensures
        components(start.push(SLASH) + piece) == (if start.len() == 0 {
            seq![seq![ROOT_RANK]]
        } else {
            components(start)
        }) + (if piece.len() == 0 || piece == seq![DOT] {
            Seq::empty()
        } else if piece == seq![DOT, DOT] {
            seq![seq![UP_RANK]]
        } else {
            seq![seq![NAME_RANK] + piece]
        }),
{
    let p = start.push(SLASH) + piece;
    law_a_slash_parts_a_path(start, piece);
    lemma_pieces_some(start);
    let before = path_pieces(start);
    let all = before + seq![piece];
    assert(all.drop_last() == before);
    assert(all.last() == piece);
    if start.len() == 0 {
        assert(p[0] == SLASH);
        assert(start == Seq::<u8>::empty());
        assert(before == seq![start]);
        assert(before.drop_last() == Seq::<Seq<u8>>::empty());
        reveal_with_fuel(piece_components, 2);
        assert(piece_components(before) == Seq::<Seq<u8>>::empty());
    } else {
        assert(p[0] == start[0]);
    }
}

/// Paths are the same if their components are. Otherwise the first component
/// that differs decides which comes first, by the first byte that differs in
/// it; what is the start of the other comes first. The root comes before `.`,
/// that before `..`, and that before a name.
pub proof fn law_the_first_difference_orders_paths(a: Seq<u8>, b: Seq<u8>, k: int, j: int)
    requires
        0 <= k <= components(a).len(),
        k <= components(b).len(),
        components(a).take(k) == components(b).take(k),
        k < components(a).len() && k < components(b).len() ==> {
            let x = components(a)[k];
            let y = components(b)[k];
            0 <= j <= x.len() && j <= y.len() && x.take(j) == y.take(j) && (j < x.len() && j
                < y.len() ==> x[j] != y[j]) && x != y
        },
    ensures
        same_path(a, b) <==> components(a) == components(b),
        k == components(a).len() && k < components(b).len() ==> path_less(a, b),
        k < components(a).len() && k < components(b).len() ==> (path_less(a, b) <==> {
            let x = components(a)[k];
            let y = components(b)[k];
            j == x.len() || (j < y.len() && x[j] < y[j])
        }),
        ROOT_RANK < HERE_RANK < UP_RANK < NAME_RANK,
{
    let p = components(a);
    let q = components(b);
    assert forall|i: int| 0 <= i < k implies p[i] == q[i] by {
        assert(p.take(k)[i] == q.take(k)[i]);
    }
    if k == p.len() && k < q.len() {
        assert(components_part(p, q, k));
    } else if k < p.len() && k < q.len() {
        let x = p[k];
        let y = q[k];
        assert forall|i: int| 0 <= i < j implies x[i] == y[i] by {
            assert(x.take(j)[i] == y.take(j)[i]);
        }
        if j == x.len() && j == y.len() {
            assert(x == y);
        }
        if j == x.len() || (j < y.len() && x[j] < y[j]) {
            assert(bytes_part(x, y, j));
            assert(components_part(p, q, k));
        } else {
            assert(bytes_part(y, x, j));
            assert(components_part(q, p, k));
            law_path_order_is_strict(b, a);
        }
    }
}

/// A list names a path exactly if one of its entries has the same components.
pub proof fn law_a_list_names_its_paths(list: Seq<Seq<u8>>, p: Seq<u8>)
    ensures
        names_path(list, p) <==> exists|i: int|
            0 <= i < list.len() && components(#[trigger] list[i]) == components(p),
        names_path(list, p) <==> list.map_values(|q: Seq<u8>| components(q)).contains(
            components(p),
        ),
{
    let named = list.map_values(|q: Seq<u8>| components(q));
    if names_path(list, p) {
        let i = choose|i: int| 0 <= i < list.len() && same_path(#[trigger] list[i], p);
        assert(components(list[i]) == components(p));
        assert(named[i] == components(p));
    }
    if exists|i: int| 0 <= i < list.len() && components(#[trigger] list[i]) == components(p) {
        let i = choose|i: int|
            0 <= i < list.len() && components(#[trigger] list[i]) == components(p);
        assert(same_path(list[i], p));
    }
    if named.contains(components(p)) {
        let i = choose|i: int| 0 <= i < named.len() && named[i] == components(p);
        assert(same_path(list[i], p));
    }
}

/// A collected set spells each path as it was spelled first.
pub proof fn law_a_set_keeps_the_first_spelling(list: Seq<Seq<u8>>, i: int)
    requires
        0 <= i < collected(list).len(),
    ensures
        exists|k: int| #[trigger]
            is_first_spelling(list, k) && list[k] == collected(list)[i],
    decreases list.len(),
{
    let set = collected(list);
    if list.len() > 0 {
        let rest = list.drop_last();
        let last = list.last();
        let before = collected(rest);
        law_collected_is_ordered(rest);
        lemma_inserted_keeps_order(before, last);
        if before.contains(set[i]) {
            let j = choose|j: int| 0 <= j < before.len() && before[j] == set[i];
            law_a_set_keeps_the_first_spelling(rest, j);
            let k = choose|k: int| #[trigger]
                is_first_spelling(rest, k) && rest[k] == before[j];
            assert(list[k] == rest[k]);
            assert forall|m: int| 0 <= m < k implies !same_path(#[trigger] list[m], list[k]) by {
                assert(list[m] == rest[m]);
            }
            assert(is_first_spelling(list, k));
        } else {
            assert(set[i] == last);
            let k = list.len() - 1;
            if names_path(before, last) {
                lemma_inserted_named(before, last);
                assert(set == before);
                assert(before[i] == set[i]);
            }
            assert forall|m: int| 0 <= m < k implies !same_path(#[trigger] list[m], list[k]) by {
                if same_path(list[m], list[k]) {
                    assert(same_path(rest[m], last));
                    assert(names_path(rest, last));
                    law_collected_names(rest, last);
                }
            }
            assert(is_first_spelling(list, k));
        }
    }
}

/// Whether no entry before the one at `k` names the same path.
pub open spec fn is_first_spelling(list: Seq<Seq<u8>>, k: int) -> bool {
    0 <= k < list.len() && forall|m: int|
        0 <= m < k ==> !same_path(#[trigger] list[m], list[k])
}

proof fn lemma_inserted_named(list: Seq<Seq<u8>>, p: Seq<u8>)
    requires
        ordered(list),
        names_path(list, p),
    ensures
        inserted(list, p) == list,
    decreases list.len(),
{
    let i = choose|i: int| 0 <= i < list.len() && same_path(#[trigger] list[i], p);
    if !same_path(list.last(), p) {
        let rest = list.drop_last();
        assert(i < rest.len());
        assert(same_path(rest[i], p));
        assert(path_less(list[i], list[list.len() - 1]));
        assert(path_less(p, list.last()));
        law_path_order_is_strict(p, list.last());
        lemma_inserted_named(rest, p);
        assert(rest.push(list.last()) == list);
    }
}

} // verus!
