//! Where paths start, and what a path below another one is. Both differ from
//! system to system.
use crate::paths::{append_bytes, copy_bytes, RepoPath, DOT, SLASH};
use crate::step::Platform;
use vstd::prelude::*;

verus! {

/// The byte `\`.
pub const BACKSLASH: u8 = 92;

/// The byte `:`.
pub const COLON: u8 = 58;

/// The byte `?`.
pub const QUESTION: u8 = 63;

/// Whether a byte separates components on Windows.
pub open spec fn is_separator(b: u8) -> bool {
    b == SLASH || b == BACKSLASH
}

/// Whether a byte is an ASCII letter.
pub open spec fn is_letter(b: u8) -> bool {
    65 <= b <= 90 || 97 <= b <= 122
}

/// Whether a byte ends a name. In a verbatim path only `\` does.
pub open spec fn ends_name(b: u8, verbatim: bool) -> bool {
    b == BACKSLASH || (b == SLASH && !verbatim)
}

/// How many bytes come before the end of the first name.
pub open spec fn name_len(p: Seq<u8>, verbatim: bool) -> nat
    decreases p.len(),
{
    if p.len() == 0 || ends_name(p[0], verbatim) {
        0
    } else {
        1 + name_len(p.drop_first(), verbatim)
    }
}

/// Whether a path starts with a drive, such as `C:`.
pub open spec fn has_drive(p: Seq<u8>) -> bool {
    p.len() >= 2 && is_letter(p[0]) && p[1] == COLON
}

/// Whether a path is verbatim: it starts with `\\?\`.
pub open spec fn is_verbatim(p: Seq<u8>) -> bool {
    p.len() >= 4 && p[0] == BACKSLASH && p[1] == BACKSLASH && p[2] == QUESTION && p[3] == BACKSLASH
}

/// Whether a path starts with `\\.\`, which a device's name follows.
pub open spec fn names_device(p: Seq<u8>) -> bool {
    p.len() >= 4 && is_separator(p[0]) && is_separator(p[1]) && p[2] == DOT && is_separator(p[3])
}

/// Whether a verbatim path goes on with `UNC\`, which a share's name follows.
pub open spec fn names_verbatim_share(p: Seq<u8>) -> bool {
    p.len() >= 8 && p[4] == 85 && p[5] == 78 && p[6] == 67 && is_separator(p[7])
}

/// The length of what a verbatim path starts with: `\\?\UNC\server\share`,
/// `\\?\C:`, or `\\?\` and a name. A name may be empty.
pub open spec fn verbatim_len(p: Seq<u8>) -> nat {
    if names_verbatim_share(p) {
        let server = name_len(p.skip(8), true);
        let share = if server + 8 < p.len() {
            name_len(p.skip(server as int + 9), true)
        } else {
            0
        };
        if share == 0 {
            server + 8
        } else {
            server + share + 9
        }
    } else if has_drive(p.skip(4)) && (p.len() == 6 || is_separator(p[6])) {
        6
    } else {
        name_len(p.skip(4), true) + 4
    }
}

/// The length of the server's name in a path that starts with two separators.
pub open spec fn server_len(p: Seq<u8>) -> nat {
    if p.len() >= 2 && is_separator(p[0]) && is_separator(p[1]) {
        name_len(p.skip(2), false)
    } else {
        0
    }
}

/// The length of what names a share, such as `\\server\share`; none where
/// either name is missing.
pub open spec fn share_len(p: Seq<u8>) -> nat {
    let server = server_len(p);
    if server == 0 || p.len() < server + 3 {
        0
    } else {
        let share = name_len(p.skip(server as int + 3), false);
        if share == 0 {
            0
        } else {
            server + share + 3
        }
    }
}

/// The length of the drive, share or device that a Windows path starts with.
pub open spec fn prefix_len(p: Seq<u8>) -> nat {
    if has_drive(p) {
        2
    } else if is_verbatim(p) {
        verbatim_len(p)
    } else if names_device(p) {
        name_len(p.skip(4), false) + 4
    } else {
        share_len(p)
    }
}

/// Whether a Windows path starts at the root of a drive, share or device.
pub open spec fn is_absolute_on_windows(p: Seq<u8>) -> bool {
    if has_drive(p) {
        p.len() > 2 && is_separator(p[2])
    } else {
        prefix_len(p) > 0
    }
}

/// Whether it depends on the current directory what a path names.
pub open spec fn is_relative_path(p: Seq<u8>, platform: Platform) -> bool {
    if platform == Platform::Windows {
        !is_absolute_on_windows(p)
    } else {
        p.len() == 0 || p[0] != SLASH
    }
}

/// The pieces of a path between the ends of its names.
pub open spec fn name_pieces(p: Seq<u8>, verbatim: bool) -> Seq<Seq<u8>>
    decreases p.len(),
{
    if p.len() == 0 {
        seq![p]
    } else {
        let before = name_pieces(p.drop_last(), verbatim);
        if ends_name(p.last(), verbatim) {
            before.push(Seq::empty())
        } else {
            before.drop_last().push(before.last().push(p.last()))
        }
    }
}

/// The pieces of a list that are not empty.
pub open spec fn filled(pieces: Seq<Seq<u8>>) -> Seq<Seq<u8>>
    decreases pieces.len(),
{
    if pieces.len() == 0 {
        Seq::empty()
    } else if pieces.last().len() == 0 {
        filled(pieces.drop_last())
    } else {
        filled(pieces.drop_last()).push(pieces.last())
    }
}

/// Whether a piece is a name, not `.` or `..`.
pub open spec fn is_name(piece: Seq<u8>) -> bool {
    piece != seq![DOT] && piece != seq![DOT, DOT]
}

/// Where one comes from a list of components by the pieces of a path: `.`
/// stays, `..` takes the last name away, and a name goes down.
pub open spec fn resolved(start: Seq<Seq<u8>>, pieces: Seq<Seq<u8>>) -> Seq<Seq<u8>>
    decreases pieces.len(),
{
    if pieces.len() == 0 {
        start
    } else {
        stepped(resolved(start, pieces.drop_last()), pieces.last())
    }
}

/// Where one comes from a list of components by one piece of a path.
pub open spec fn stepped(at: Seq<Seq<u8>>, piece: Seq<u8>) -> Seq<Seq<u8>> {
    if piece.len() == 0 || piece == seq![DOT] {
        at
    } else if piece == seq![DOT, DOT] {
        if at.len() > 0 && is_name(at.last()) {
            at.drop_last()
        } else {
            at
        }
    } else {
        at.push(piece)
    }
}

/// A start of a path, with components behind it.
pub open spec fn with_components(start: Seq<u8>, parts: Seq<Seq<u8>>) -> Seq<u8>
    decreases parts.len(),
{
    if parts.len() == 0 {
        start
    } else {
        with_components(start, parts.drop_last()).push(BACKSLASH) + parts.last()
    }
}

/// The components of a verbatim path behind what it starts with.
pub open spec fn verbatim_components(base: Seq<u8>) -> Seq<Seq<u8>> {
    filled(name_pieces(base.skip(verbatim_len(base) as int + 1), true))
}

/// The components of a path below a verbatim base. The system reads no `.` or
/// `..` in a verbatim path, so those of the path are resolved.
pub open spec fn components_below(base: Seq<u8>, p: Seq<u8>) -> Seq<Seq<u8>> {
    let start = if is_separator(p[0]) || base.len() == verbatim_len(base) {
        Seq::empty()
    } else {
        verbatim_components(base)
    };
    resolved(start, name_pieces(p, false))
}

/// A path, not empty, below a verbatim base.
pub open spec fn below_verbatim(base: Seq<u8>, p: Seq<u8>) -> Seq<u8> {
    let start = base.take(verbatim_len(base) as int);
    let parts = components_below(base, p);
    if parts.len() == 0 && (is_separator(p[0]) || base.len() > start.len()) {
        start.push(BACKSLASH)
    } else {
        with_components(start, parts)
    }
}

/// A path below a base directory. On Windows, a path with a drive of its own
/// stays as it is, and one that starts with a separator goes to the root of
/// the base's drive or share. Below a verbatim base a path is resolved.
pub open spec fn below_path(base: Seq<u8>, p: Seq<u8>, platform: Platform) -> Seq<u8> {
    if !is_relative_path(p, platform) {
        p
    } else if platform == Platform::Windows {
        if has_drive(p) {
            p
        } else if is_verbatim(base) && p.len() > 0 {
            below_verbatim(base, p)
        } else if p.len() > 0 && is_separator(p[0]) {
            base.take(prefix_len(base) as int) + p
        } else if base.len() == 0 || is_separator(base.last()) || (has_drive(base) && base.len()
            == 2) {
            base + p
        } else {
            base.push(BACKSLASH) + p
        }
    } else if base.len() > 0 && base.last() != SLASH {
        base.push(SLASH) + p
    } else {
        base + p
    }
}

/// A name ends at the first byte that ends one, or with the path.
proof fn lemma_name_len(p: Seq<u8>, verbatim: bool)
    ensures
        name_len(p, verbatim) <= p.len(),
        forall|i: int|
            0 <= i < name_len(p, verbatim) ==> !ends_name(#[trigger] p[i], verbatim),
        name_len(p, verbatim) < p.len() ==> ends_name(p[name_len(p, verbatim) as int], verbatim),
    decreases p.len(),
{
    if p.len() > 0 && !ends_name(p[0], verbatim) {
        let rest = p.drop_first();
        lemma_name_len(rest, verbatim);
        assert forall|i: int| 0 <= i < name_len(p, verbatim) implies !ends_name(
            #[trigger] p[i],
            verbatim,
        ) by {
            if i > 0 {
                assert(rest[i - 1] == p[i]);
            }
        }
        if name_len(p, verbatim) < p.len() {
            assert(rest[name_len(rest, verbatim) as int] == p[name_len(p, verbatim) as int]);
        }
    }
}

proof fn lemma_name_len_is(p: Seq<u8>, verbatim: bool, n: nat)
    requires
        n <= p.len(),
        forall|i: int| 0 <= i < n ==> !ends_name(#[trigger] p[i], verbatim),
        n < p.len() ==> ends_name(p[n as int], verbatim),
    ensures
        name_len(p, verbatim) == n,
    decreases n,
{
    if n > 0 {
        assert(!ends_name(p[0], verbatim));
        let rest = p.drop_first();
        assert forall|i: int| 0 <= i < n - 1 implies !ends_name(#[trigger] rest[i], verbatim) by {
            assert(rest[i] == p[i + 1]);
        }
        lemma_name_len_is(rest, verbatim, (n - 1) as nat);
    }
}

/// What a verbatim path starts with is part of it.
proof fn lemma_verbatim_len(p: Seq<u8>)
    requires
        is_verbatim(p),
    ensures
        4 <= verbatim_len(p) <= p.len(),
{
    if names_verbatim_share(p) {
        lemma_name_len(p.skip(8), true);
        let server = name_len(p.skip(8), true);
        if server + 8 < p.len() {
            lemma_name_len(p.skip(server as int + 9), true);
        }
    } else {
        lemma_name_len(p.skip(4), true);
    }
}

proof fn lemma_with_components(start: Seq<u8>, parts: Seq<Seq<u8>>)
    ensures
        start.is_prefix_of(with_components(start, parts)),
    decreases parts.len(),
{
    if parts.len() > 0 {
        lemma_with_components(start, parts.drop_last());
    }
}

/// A path below a verbatim base is verbatim: it starts with what the base
/// starts with.
pub proof fn law_below_a_verbatim_path_is_verbatim(base: Seq<u8>, p: Seq<u8>)
    requires
        is_verbatim(base),
        is_relative_path(p, Platform::Windows),
        !has_drive(p),
    ensures
        base.take(verbatim_len(base) as int).is_prefix_of(
            below_path(base, p, Platform::Windows),
        ),
        is_verbatim(below_path(base, p, Platform::Windows)),
{
    let x = below_path(base, p, Platform::Windows);
    let start = base.take(verbatim_len(base) as int);
    lemma_verbatim_len(base);
    if p.len() > 0 {
        lemma_with_components(start, components_below(base, p));
    }
    assert(start.is_prefix_of(x));
    assert forall|i: int| 0 <= i < 4 implies x[i] == #[trigger] base[i] by {
        assert(start[i] == base[i]);
    }
}

/// No `.` or `..` of a path is left of it below a verbatim base: each component
/// was one of the base, or is a name of the path.
pub proof fn law_below_a_verbatim_path_nothing_is_unresolved(base: Seq<u8>, p: Seq<u8>, k: int)
    requires
        is_verbatim(base),
        p.len() > 0,
        0 <= k < components_below(base, p).len(),
    ensures
        verbatim_components(base).contains(components_below(base, p)[k]) || is_name(
            components_below(base, p)[k],
        ),
{
    let start = if is_separator(p[0]) || base.len() == verbatim_len(base) {
        Seq::empty()
    } else {
        verbatim_components(base)
    };
    lemma_resolved(start, name_pieces(p, false), k);
}

proof fn lemma_resolved(start: Seq<Seq<u8>>, pieces: Seq<Seq<u8>>, k: int)
    requires
        0 <= k < resolved(start, pieces).len(),
    ensures
        start.contains(resolved(start, pieces)[k]) || is_name(resolved(start, pieces)[k]),
    decreases pieces.len(),
{
    if pieces.len() > 0 {
        let before = resolved(start, pieces.drop_last());
        if k < before.len() {
            lemma_resolved(start, pieces.drop_last(), k);
        }
    }
}

/// A path that starts as one on a share does is on a share.
proof fn lemma_share_stays(base: Seq<u8>, x: Seq<u8>)
    requires
        share_len(base) > 0,
        !is_verbatim(base),
        !names_device(base),
        x.len() >= server_len(base) + 4,
        forall|i: int| 0 <= i < server_len(base) + 4 ==> x[i] == #[trigger] base[i],
    ensures
        share_len(x) > 0,
        !has_drive(x),
        !is_verbatim(x),
        !names_device(x),
{
    let server = server_len(base);
    let b = base.skip(2);
    let y = x.skip(2);
    lemma_name_len(b, false);
    let share = base.skip(server as int + 3);
    lemma_name_len(share, false);
    assert(share[0] == base[server as int + 3]);
    assert(base[0] == x[0] && base[1] == x[1] && base[2] == x[2] && base[3] == x[3]);
    assert forall|i: int| 0 <= i < server implies !ends_name(#[trigger] y[i], false) by {
        assert(b[i] == base[i + 2]);
        assert(y[i] == x[i + 2]);
    }
    assert(y[server as int] == base[server as int + 2]);
    assert(b[server as int] == base[server as int + 2]);
    lemma_name_len_is(y, false, server);
    assert(x.skip(server as int + 3)[0] == base[server as int + 3]);
}

/// A path below an absolute one is absolute. On Windows one that names a drive
/// but not its root stays relative to that drive.
pub proof fn law_below_an_absolute_path_is_absolute(
    base: Seq<u8>,
    p: Seq<u8>,
    platform: Platform,
)
    requires
        !is_relative_path(base, platform),
        platform == Platform::Windows ==> has_drive(p) ==> !is_relative_path(p, platform),
    ensures
        !is_relative_path(below_path(base, p, platform), platform),
{
    let x = below_path(base, p, platform);
    if platform == Platform::Windows && is_relative_path(p, platform) {
        if is_verbatim(base) {
            law_below_a_verbatim_path_is_verbatim(base, p);
            lemma_verbatim_len(x);
        } else if !has_drive(base) && !names_device(base) {
            let share = base.skip(server_len(base) as int + 3);
            lemma_name_len(share, false);
            assert(x.len() >= server_len(base) + 4);
            lemma_share_stays(base, x);
        } else if names_device(base) {
            lemma_name_len(base.skip(4), false);
            assert(x[0] == base[0] && x[1] == base[1] && x[2] == base[2] && x[3] == base[3]);
        }
    }
}

/// Counts the bytes from a place to the end of the name there.
fn count_name(p: &Vec<u8>, from: usize, verbatim: bool) -> (r: usize)
    requires
        from <= p.len(),
    ensures
        r == name_len(p@.skip(from as int), verbatim),
        r <= p.len() - from,
{
    let mut n: usize = 0;
    let ghost s = p@.skip(from as int);
    while n < p.len() - from && !closes_name(p[from + n], verbatim)
        invariant
            from <= p.len(),
            n <= p.len() - from,
            s == p@.skip(from as int),
            forall|i: int| 0 <= i < n ==> !ends_name(#[trigger] s[i], verbatim),
        decreases p.len() - from - n,
    {
        n += 1;
    }
    proof {
        lemma_name_len_is(s, verbatim, n as nat);
    }
    n
}

/// Tells whether a byte ends a name.
fn closes_name(b: u8, verbatim: bool) -> (r: bool)
    ensures
        r == ends_name(b, verbatim),
{
    b == BACKSLASH || (b == SLASH && !verbatim)
}

/// Tells whether a path is verbatim.
fn starts_verbatim(p: &Vec<u8>) -> (r: bool)
    ensures
        r == is_verbatim(p@),
{
    p.len() >= 4 && p[0] == BACKSLASH && p[1] == BACKSLASH && p[2] == QUESTION && p[3] == BACKSLASH
}

/// Measures what a verbatim path starts with.
fn measure_verbatim(p: &Vec<u8>) -> (r: usize)
    requires
        is_verbatim(p@),
    ensures
        r == verbatim_len(p@),
        r <= p.len(),
{
    let n: usize = p.len();
    if n >= 8 && p[4] == 85 && p[5] == 78 && p[6] == 67 && separates(p[7]) {
        let server = count_name(p, 8, true);
        let share = if server < n - 8 {
            count_name(p, server + 9, true)
        } else {
            0
        };
        return if share == 0 {
            server + 8
        } else {
            server + share + 9
        };
    }
    if n >= 6 && is_ascii_letter(p[4]) && p[5] == COLON && (n == 6 || separates(p[6])) {
        return 6;
    }
    count_name(p, 4, true) + 4
}

/// Measures the drive, share or device that a Windows path starts with.
fn measure_prefix(p: &Vec<u8>) -> (r: usize)
    ensures
        r == prefix_len(p@),
        r <= p.len(),
{
    if starts_with_drive(p) {
        return 2;
    }
    if starts_verbatim(p) {
        return measure_verbatim(p);
    }
    if p.len() < 2 || !separates(p[0]) || !separates(p[1]) {
        return 0;
    }
    if p.len() >= 4 && p[2] == DOT && separates(p[3]) {
        return count_name(p, 4, false) + 4;
    }
    let server = count_name(p, 2, false);
    if server == 0 || p.len() - 2 < server + 1 {
        return 0;
    }
    let share = count_name(p, server + 3, false);
    if share == 0 {
        0
    } else {
        server + share + 3
    }
}

/// The bytes of each piece of a list.
pub open spec fn piece_bytes(list: Seq<Vec<u8>>) -> Seq<Seq<u8>> {
    Seq::new(list.len(), |i: int| list[i]@)
}

/// Splits the bytes of a path from a place on into pieces.
fn split_names(p: &Vec<u8>, from: usize, verbatim: bool) -> (r: Vec<Vec<u8>>)
    requires
        from <= p.len(),
    ensures
        piece_bytes(r@) == name_pieces(p@.skip(from as int), verbatim),
{
    let ghost s = p@.skip(from as int);
    let mut done: Vec<Vec<u8>> = Vec::new();
    let mut current: Vec<u8> = Vec::new();
    let mut i: usize = from;
    proof {
        assert(s.take(0) == Seq::<u8>::empty());
        assert(piece_bytes(done@).push(current@) == name_pieces(s.take(0), verbatim));
    }
    while i < p.len()
        invariant
            from <= i <= p.len(),
            s == p@.skip(from as int),
            piece_bytes(done@).push(current@) == name_pieces(s.take(i - from), verbatim),
        decreases p.len() - i,
    {
        let ghost was = piece_bytes(done@);
        proof {
            assert(s.take(i - from + 1).drop_last() == s.take(i - from));
            assert(was.push(current@).drop_last() == was);
        }
        let b: u8 = p[i];
        if closes_name(b, verbatim) {
            let ghost piece = current@;
            done.push(current);
            current = Vec::new();
            proof {
                assert(piece_bytes(done@) == was.push(piece));
            }
        } else {
            current.push(b);
        }
        i += 1;
    }
    let ghost was = piece_bytes(done@);
    let ghost piece = current@;
    done.push(current);
    proof {
        assert(piece_bytes(done@) == was.push(piece));
        assert(s.take(s.len() as int) == s);
    }
    done
}

/// Takes the empty pieces out of a list.
fn drop_empty(pieces: &Vec<Vec<u8>>) -> (r: Vec<Vec<u8>>)
    ensures
        piece_bytes(r@) == filled(piece_bytes(pieces@)),
{
    let ghost all = piece_bytes(pieces@);
    let mut out: Vec<Vec<u8>> = Vec::new();
    let mut i: usize = 0;
    proof {
        assert(piece_bytes(out@) == filled(all.take(0)));
    }
    while i < pieces.len()
        invariant
            i <= pieces.len(),
            all == piece_bytes(pieces@),
            piece_bytes(out@) == filled(all.take(i as int)),
        decreases pieces.len() - i,
    {
        let ghost was = piece_bytes(out@);
        proof {
            assert(all.take(i + 1).drop_last() == all.take(i as int));
        }
        if pieces[i].len() > 0 {
            let piece = copy_bytes(&pieces[i]);
            let ghost bytes = piece@;
            out.push(piece);
            proof {
                assert(piece_bytes(out@) == was.push(bytes));
            }
        }
        i += 1;
    }
    proof {
        assert(all.take(all.len() as int) == all);
    }
    out
}

/// Tells whether a piece is `.` or `..`, by how many dots it holds.
fn is_dots(piece: &Vec<u8>, two: bool) -> (r: bool)
    ensures
        r == (piece@ == if two {
            seq![DOT, DOT]
        } else {
            seq![DOT]
        }),
{
    if two {
        let r = piece.len() == 2 && piece[0] == DOT && piece[1] == DOT;
        proof {
            assert(r ==> piece@ == seq![DOT, DOT]);
        }
        r
    } else {
        let r = piece.len() == 1 && piece[0] == DOT;
        proof {
            assert(r ==> piece@ == seq![DOT]);
        }
        r
    }
}

/// Goes from a list of components by the pieces of a path.
fn resolve(start: Vec<Vec<u8>>, pieces: &Vec<Vec<u8>>) -> (r: Vec<Vec<u8>>)
    ensures
        piece_bytes(r@) == resolved(piece_bytes(start@), piece_bytes(pieces@)),
{
    let ghost first = piece_bytes(start@);
    let ghost all = piece_bytes(pieces@);
    let mut at = start;
    let mut i: usize = 0;
    while i < pieces.len()
        invariant
            i <= pieces.len(),
            all == piece_bytes(pieces@),
            piece_bytes(at@) == resolved(first, all.take(i as int)),
        decreases pieces.len() - i,
    {
        let ghost was = piece_bytes(at@);
        proof {
            assert(all.take(i + 1).drop_last() == all.take(i as int));
        }
        let piece = &pieces[i];
        proof {
            assert(all.take(i + 1).last() == piece@);
            assert(seq![DOT, DOT].len() == 2 && seq![DOT].len() == 1);
        }
        if is_dots(piece, true) {
            let n: usize = at.len();
            proof {
                assert(n > 0 ==> was.last() == at@[n - 1]@);
            }
            if n > 0 && !is_dots(&at[n - 1], false) && !is_dots(&at[n - 1], true) {
                at.truncate(n - 1);
                proof {
                    assert(piece_bytes(at@) == was.drop_last());
                }
            }
        } else if piece.len() > 0 && !is_dots(piece, false) {
            let name = copy_bytes(piece);
            let ghost bytes = name@;
            at.push(name);
            proof {
                assert(piece_bytes(at@) == was.push(bytes));
            }
        }
        i += 1;
    }
    proof {
        assert(all.take(all.len() as int) == all);
    }
    at
}

/// Puts components behind a start of a path.
fn append_components(start: Vec<u8>, parts: &Vec<Vec<u8>>) -> (r: Vec<u8>)
    ensures
        r@ == with_components(start@, piece_bytes(parts@)),
{
    let ghost first = start@;
    let ghost all = piece_bytes(parts@);
    let mut out = start;
    let mut i: usize = 0;
    while i < parts.len()
        invariant
            i <= parts.len(),
            all == piece_bytes(parts@),
            out@ == with_components(first, all.take(i as int)),
        decreases parts.len() - i,
    {
        proof {
            assert(all.take(i + 1).drop_last() == all.take(i as int));
        }
        out.push(BACKSLASH);
        append_bytes(&mut out, &parts[i]);
        i += 1;
    }
    proof {
        assert(all.take(all.len() as int) == all);
    }
    out
}

/// Resolves a path below a verbatim base.
fn resolve_below(base: &Vec<u8>, p: &Vec<u8>) -> (r: Vec<u8>)
    requires
        is_verbatim(base@),
        p@.len() > 0,
    ensures
        r@ == below_verbatim(base@, p@),
{
    let kept = measure_verbatim(base);
    let from_root = separates(p[0]);
    let start = if from_root || kept == base.len() {
        let none: Vec<Vec<u8>> = Vec::new();
        proof {
            assert(piece_bytes(none@) == Seq::<Seq<u8>>::empty());
        }
        none
    } else {
        drop_empty(&split_names(base, kept + 1, true))
    };
    proof {
        assert(p@.skip(0) == p@);
    }
    let parts = resolve(start, &split_names(p, 0, false));
    let mut raw = copy_bytes(base);
    raw.truncate(kept);
    if parts.len() == 0 && (from_root || kept < base.len()) {
        raw.push(BACKSLASH);
        raw
    } else {
        append_components(raw, &parts)
    }
}

/// Tells whether a byte separates components on Windows.
fn separates(b: u8) -> (r: bool)
    ensures
        r == is_separator(b),
{
    b == SLASH || b == BACKSLASH
}

/// Tells whether a path starts with a drive.
fn starts_with_drive(p: &Vec<u8>) -> (r: bool)
    ensures
        r == has_drive(p@),
{
    p.len() >= 2 && is_ascii_letter(p[0]) && p[1] == COLON
}

/// Tells whether a byte is an ASCII letter.
fn is_ascii_letter(b: u8) -> (r: bool)
    ensures
        r == is_letter(b),
{
    (65 <= b && b <= 90) || (97 <= b && b <= 122)
}

impl RepoPath {
    /// Tells whether it depends on the current directory what this path names.
    pub fn is_relative(&self, platform: Platform) -> (r: bool)
        ensures
            r == is_relative_path(self@, platform),
    {
        if platform == Platform::Windows {
            if starts_with_drive(&self.raw) {
                !(self.raw.len() > 2 && separates(self.raw[2]))
            } else {
                measure_prefix(&self.raw) == 0
            }
        } else {
            self.raw.len() == 0 || self.raw[0] != SLASH
        }
    }

    /// This path below `base`; a path that is not relative stays as it is.
    pub fn below(&self, base: &RepoPath, platform: Platform) -> (r: RepoPath)
        ensures
            r@ == below_path(base@, self@, platform),
    {
        if !self.is_relative(platform) {
            return self.copy();
        }
        let mut raw = copy_bytes(&base.raw);
        let n: usize = raw.len();
        if platform == Platform::Windows {
            if starts_with_drive(&self.raw) {
                return self.copy();
            }
            if self.raw.len() > 0 && starts_verbatim(&base.raw) {
                return RepoPath { raw: resolve_below(&base.raw, &self.raw) };
            }
            if self.raw.len() > 0 && separates(self.raw[0]) {
                let kept = measure_prefix(&base.raw);
                raw.truncate(kept);
            } else if n > 0 && !separates(raw[n - 1]) && !(starts_with_drive(&raw) && n == 2) {
                raw.push(BACKSLASH);
            }
        } else if n > 0 && raw[n - 1] != SLASH {
            raw.push(SLASH);
        }
        append_bytes(&mut raw, &self.raw);
        RepoPath { raw }
    }
}

/// Away from Windows a path is absolute exactly if it starts with a slash, and
/// a relative one stands below a base with one slash between them.
pub proof fn law_slashes_make_paths_absolute(base: Seq<u8>, p: Seq<u8>, platform: Platform)
    requires
        platform != Platform::Windows,
    ensures
        is_relative_path(p, platform) <==> !(p.len() > 0 && p[0] == 47),
        p.len() > 0 && p[0] == 47 ==> below_path(base, p, platform) == p,
        !(p.len() > 0 && p[0] == 47) && base.len() > 0 && base.last() != 47 ==> below_path(
            base,
            p,
            platform,
        ) == base + seq![47u8] + p,
        !(p.len() > 0 && p[0] == 47) && (base.len() == 0 || base.last() == 47) ==> below_path(
            base,
            p,
            platform,
        ) == base + p,
{
    assert(base.push(47u8) == base + seq![47u8]);
}

/// On Windows a drive makes a path absolute where a separator follows it, and
/// a path with a drive of its own stands below nothing.
pub proof fn law_a_drive_needs_its_root(base: Seq<u8>, drive: u8, rest: Seq<u8>)
    requires
        65 <= drive <= 90 || 97 <= drive <= 122,
    ensures
        ({
            let p = seq![drive, 58u8] + rest;
            let rooted = rest.len() > 0 && (rest[0] == 47 || rest[0] == 92);
            &&& is_relative_path(p, Platform::Windows) <==> !rooted
            &&& below_path(base, p, Platform::Windows) == p
            &&& prefix_len(p) == 2
        }),
{
    let p = seq![drive, 58u8] + rest;
    assert(p[0] == drive && p[1] == 58);
    if rest.len() > 0 {
        assert(p[2] == rest[0]);
    }
}

/// On Windows a path without a drive that does not start with two separators
/// is relative. Behind a separator it stands at the root of the base's drive or
/// share; otherwise it stands behind the base, with a separator where the base
/// needs one.
pub proof fn law_other_paths_are_relative_on_windows(base: Seq<u8>, p: Seq<u8>)
    requires
        !(p.len() >= 2 && (65 <= p[0] <= 90 || 97 <= p[0] <= 122) && p[1] == 58),
        !(p.len() >= 2 && (p[0] == 47 || p[0] == 92) && (p[1] == 47 || p[1] == 92)),
        !is_verbatim(base),
    ensures
        is_relative_path(p, Platform::Windows),
        p.len() > 0 && (p[0] == 47 || p[0] == 92) ==> below_path(base, p, Platform::Windows)
            == base.take(prefix_len(base) as int) + p,
        !(p.len() > 0 && (p[0] == 47 || p[0] == 92)) ==> below_path(base, p, Platform::Windows)
            == (if base.len() == 0 || base.last() == 47 || base.last() == 92 || (base.len() == 2
            && (65 <= base[0] <= 90 || 97 <= base[0] <= 122) && base[1] == 58) {
            base + p
        } else {
            base + seq![92u8] + p
        }),
{
    assert(base.push(92u8) == base + seq![92u8]);
}

/// On Windows a server and a share make a path absolute, and are what it
/// starts with.
pub proof fn law_a_share_is_a_root(
    a: u8,
    b: u8,
    server: Seq<u8>,
    c: u8,
    share: Seq<u8>,
    rest: Seq<u8>,
)
    requires
        a == 47 || a == 92,
        b == 47 || b == 92,
        c == 47 || c == 92,
        server.len() > 0 && share.len() > 0,
        forall|i: int| 0 <= i < server.len() ==> #[trigger] server[i] != 47 && server[i] != 92,
        forall|i: int| 0 <= i < share.len() ==> #[trigger] share[i] != 47 && share[i] != 92,
        server != seq![DOT] && server != seq![QUESTION],
        rest.len() > 0 ==> rest[0] == 47 || rest[0] == 92,
    ensures
        ({
            let p = seq![a, b] + server + seq![c] + share + rest;
            &&& !is_relative_path(p, Platform::Windows)
            &&& prefix_len(p) == server.len() + share.len() + 3
        }),
{
    let p = seq![a, b] + server + seq![c] + share + rest;
    let y = p.skip(2);
    let n = server.len();
    assert(p[0] == a && p[1] == b);
    assert forall|i: int| 0 <= i < n implies !ends_name(#[trigger] y[i], false) by {
        assert(y[i] == server[i]);
    }
    assert(y[n as int] == c);
    lemma_name_len_is(y, false, n);
    let z = p.skip(n as int + 3);
    let m = share.len();
    assert forall|i: int| 0 <= i < m implies !ends_name(#[trigger] z[i], false) by {
        assert(z[i] == share[i]);
    }
    if rest.len() > 0 {
        assert(z[m as int] == rest[0]);
    }
    lemma_name_len_is(z, false, m);
    assert(p[2] == server[0]);
    if n == 1 {
        assert(p[3] == c);
        if server[0] == DOT {
            assert(server == seq![DOT]);
        }
        if server[0] == QUESTION {
            assert(server == seq![QUESTION]);
        }
    } else {
        assert(p[3] == server[1]);
    }
}

/// What starts with two separators but names no share, device or verbatim path
/// is relative on Windows.
pub proof fn law_a_server_alone_is_no_root(a: u8, b: u8, server: Seq<u8>, c: u8)
    requires
        a == 47 || a == 92,
        b == 47 || b == 92,
        c == 47 || c == 92,
        forall|i: int| 0 <= i < server.len() ==> #[trigger] server[i] != 47 && server[i] != 92,
        server != seq![DOT] && server != seq![QUESTION],
    ensures
        is_relative_path(seq![a, b] + server, Platform::Windows),
        is_relative_path(seq![a, b] + server + seq![c], Platform::Windows),
{
    let p = seq![a, b] + server;
    let q = p + seq![c];
    let n = server.len();
    assert(p.skip(2) == server);
    assert forall|i: int| 0 <= i < n implies !ends_name(#[trigger] server[i], false) by {}
    lemma_name_len_is(server, false, n);
    let y = q.skip(2);
    assert forall|i: int| 0 <= i < n implies !ends_name(#[trigger] y[i], false) by {
        assert(y[i] == server[i]);
    }
    assert(y[n as int] == c);
    lemma_name_len_is(y, false, n);
    assert(q.skip(n as int + 3).len() == 0);
    if n >= 1 {
        assert(p[2] == server[0] && q[2] == server[0]);
        if n == 1 {
            if server[0] == DOT {
                assert(server == seq![DOT]);
            }
            if server[0] == QUESTION {
                assert(server == seq![QUESTION]);
            }
        } else {
            assert(p[3] == server[1] && q[3] == server[1]);
        }
    } else {
        assert(q[2] == c);
    }
}

/// `\\?\` and `\\.\` make a path absolute, whatever name follows; the former
/// only as it is spelled here.
pub proof fn law_verbatim_and_device_paths_are_absolute(rest: Seq<u8>, a: u8, b: u8, c: u8)
    requires
        a == 47 || a == 92,
        b == 47 || b == 92,
        c == 47 || c == 92,
    ensures
        !is_relative_path(seq![92u8, 92u8, 63u8, 92u8] + rest, Platform::Windows),
        !is_relative_path(seq![a, b, 46u8, c] + rest, Platform::Windows),
        is_verbatim(seq![a, b, 63u8, c] + rest) <==> a == 92 && b == 92 && c == 92,
{
    let p = seq![92u8, 92u8, 63u8, 92u8] + rest;
    assert(p[0] == 92 && p[1] == 92 && p[2] == 63 && p[3] == 92);
    lemma_verbatim_len(p);
    let q = seq![a, b, 46u8, c] + rest;
    assert(q[0] == a && q[1] == b && q[2] == 46 && q[3] == c);
    let s = seq![a, b, 63u8, c] + rest;
    assert(s[0] == a && s[1] == b && s[2] == 63 && s[3] == c);
}

/// What a verbatim path starts with: a drive, the name up to the next `\`, or
/// a share behind `UNC`.
pub proof fn law_a_verbatim_path_starts_with_its_name(
    drive: u8,
    name: Seq<u8>,
    server: Seq<u8>,
    share: Seq<u8>,
    rest: Seq<u8>,
)
    requires
        65 <= drive <= 90 || 97 <= drive <= 122,
        !name.contains(92),
        !server.contains(92),
        !share.contains(92),
        rest.len() > 0 ==> rest[0] == 92,
    ensures
        verbatim_len(seq![92u8, 92u8, 63u8, 92u8, drive, 58u8] + rest) == 6,
        !(name.len() == 2 && (65 <= name[0] <= 90 || 97 <= name[0] <= 122) && name[1] == 58) && !(
        name.len() > 2 && (65 <= name[0] <= 90 || 97 <= name[0] <= 122) && name[1] == 58 && name[2]
            == 47) && !(name.len() >= 3 && name[0] == 85 && name[1] == 78 && name[2] == 67)
            ==> verbatim_len(seq![92u8, 92u8, 63u8, 92u8] + name + rest) == name.len() + 4,
        share.len() > 0 ==> verbatim_len(
            seq![92u8, 92u8, 63u8, 92u8, 85u8, 78u8, 67u8, 92u8] + server + seq![92u8] + share
                + rest,
        ) == server.len() + share.len() + 9,
{
    let p = seq![92u8, 92u8, 63u8, 92u8, drive, 58u8] + rest;
    assert(p.skip(4)[0] == drive && p.skip(4)[1] == 58);
    assert(p[4] == drive && p[5] == 58);
    if rest.len() > 0 {
        assert(p[6] == rest[0]);
    }
    let q = seq![92u8, 92u8, 63u8, 92u8] + name + rest;
    let y = q.skip(4);
    let n = name.len();
    assert forall|i: int| 0 <= i < n implies !ends_name(#[trigger] y[i], true) by {
        assert(y[i] == name[i]);
    }
    if rest.len() > 0 {
        assert(y[n as int] == rest[0]);
    }
    lemma_name_len_is(y, true, n);
    assert(forall|i: int| 0 <= i < n ==> q[i + 4] == #[trigger] name[i]);
    if n > 0 {
        assert(y[0] == name[0] && q[4] == name[0]);
    }
    if n > 1 {
        assert(y[1] == name[1] && q[5] == name[1]);
    }
    if n > 2 {
        assert(y[2] == name[2] && q[6] == name[2]);
    }
    if n <= 2 && rest.len() > 0 {
        assert(q[4 + n as int] == 92);
    }
    let s = seq![92u8, 92u8, 63u8, 92u8, 85u8, 78u8, 67u8, 92u8] + server + seq![92u8] + share
        + rest;
    assert(s[4] == 85 && s[5] == 78 && s[6] == 67 && s[7] == 92);
    let t = s.skip(8);
    let k = server.len();
    assert forall|i: int| 0 <= i < k implies !ends_name(#[trigger] t[i], true) by {
        assert(t[i] == server[i]);
    }
    assert(t[k as int] == 92);
    lemma_name_len_is(t, true, k);
    let u = s.skip(k as int + 9);
    let m = share.len();
    assert forall|i: int| 0 <= i < m implies !ends_name(#[trigger] u[i], true) by {
        assert(u[i] == share[i]);
    }
    if rest.len() > 0 {
        assert(u[m as int] == rest[0]);
    }
    lemma_name_len_is(u, true, m);
}

/// Pieces end where a separator stands; in a verbatim path only `\` is one.
pub proof fn law_a_separator_parts_the_pieces(a: Seq<u8>, c: u8, b: Seq<u8>, verbatim: bool)
    ensures
        c == 92 || (c == 47 && !verbatim) ==> name_pieces(a.push(c) + b, verbatim) == name_pieces(
            a,
            verbatim,
        ) + name_pieces(b, verbatim),
        !b.contains(92) && (!verbatim ==> !b.contains(47)) ==> name_pieces(b, verbatim) == seq![b],
    decreases b.len(),
{
    let s = a.push(c) + b;
    if b.len() == 0 {
        assert(s == a.push(c));
        assert(s.drop_last() == a);
        assert(b == Seq::<u8>::empty());
        assert(name_pieces(b, verbatim) == seq![b]);
    } else {
        let t = b.drop_last();
        assert(s.drop_last() == a.push(c) + t);
        assert(s.last() == b.last());
        law_a_separator_parts_the_pieces(a, c, t, verbatim);
        lemma_some_piece(t, verbatim);
        let x = name_pieces(a, verbatim);
        let y = name_pieces(t, verbatim);
        assert((x + y).last() == y.last());
        assert((x + y).drop_last() == x + y.drop_last());
        if !b.contains(92) && (!verbatim ==> !b.contains(47)) {
            assert(b[b.len() - 1] == b.last());
            assert forall|i: int| 0 <= i < t.len() implies t[i] != 92 && (!verbatim ==> t[i]
                != 47) by {
                assert(t[i] == b[i]);
            }
            assert(t.push(b.last()) == b);
        }
    }
}

proof fn lemma_some_piece(p: Seq<u8>, verbatim: bool)
    ensures
        name_pieces(p, verbatim).len() > 0,
    decreases p.len(),
{
    if p.len() > 0 {
        lemma_some_piece(p.drop_last(), verbatim);
    }
}

/// A path is gone along piece by piece: an empty piece and `.` stay, a name
/// goes down, and `..` undoes a name but nothing else.
pub proof fn law_a_path_is_gone_along(
    start: Seq<Seq<u8>>,
    a: Seq<Seq<u8>>,
    b: Seq<Seq<u8>>,
    name: Seq<u8>,
)
    ensures
        resolved(start, a + b) == resolved(resolved(start, a), b),
        resolved(start, Seq::empty()) == start,
        resolved(start, seq![Seq::empty()]) == start,
        resolved(start, seq![seq![46u8]]) == start,
        name.len() > 0 && name != seq![46u8] && name != seq![46u8, 46u8] ==> resolved(
            start,
            seq![name],
        ) == start.push(name) && resolved(start.push(name), seq![seq![46u8, 46u8]]) == start,
        start.len() == 0 || start.last() == seq![46u8] || start.last() == seq![46u8, 46u8]
            ==> resolved(start, seq![seq![46u8, 46u8]]) == start,
    decreases b.len(),
{
    reveal_with_fuel(resolved, 2);
    let none = Seq::<Seq<u8>>::empty();
    assert(seq![Seq::<u8>::empty()].drop_last() == none);
    assert(seq![seq![46u8]].drop_last() == none);
    assert(seq![seq![46u8, 46u8]].drop_last() == none);
    assert(seq![name].drop_last() == none);
    assert(seq![46u8, 46u8].len() == 2 && seq![46u8].len() == 1);
    assert(start.push(name).drop_last() == start);
    if b.len() == 0 {
        assert(a + b == a);
    } else {
        assert((a + b).drop_last() == a + b.drop_last());
        law_a_path_is_gone_along(start, a, b.drop_last(), name);
    }
}

/// A path below a verbatim base is what the base starts with, and the
/// components that the path leads to from those of the base, or from the root
/// where it starts there, each behind a `\`.
pub proof fn law_a_path_below_a_verbatim_base_is_resolved(base: Seq<u8>, p: Seq<u8>)
    requires
        is_verbatim(base),
        p.len() > 0,
        is_relative_path(p, Platform::Windows),
        !(p.len() >= 2 && (65 <= p[0] <= 90 || 97 <= p[0] <= 122) && p[1] == 58),
    ensures
        ({
            let head = base.take(verbatim_len(base) as int);
            let rest = base.skip(verbatim_len(base) as int);
            let at_root = p[0] == 47 || p[0] == 92;
            let from = if at_root || rest.len() == 0 {
                Seq::empty()
            } else {
                name_pieces(rest.drop_first(), true).filter(|piece: Seq<u8>| piece.len() > 0)
            };
            let parts = resolved(from, name_pieces(p, false));
            below_path(base, p, Platform::Windows) == (if parts.len() > 0 {
                with_components(head, parts)
            } else if at_root || rest.len() > 0 {
                head.push(92)
            } else {
                head
            })
        }),
{
    lemma_verbatim_len(base);
    let n = verbatim_len(base) as int;
    let rest = base.skip(n);
    if rest.len() > 0 {
        assert(rest.drop_first() == base.skip(n + 1));
        lemma_filled(name_pieces(rest.drop_first(), true));
    }
}

proof fn lemma_filled(pieces: Seq<Seq<u8>>)
    ensures
        filled(pieces) == pieces.filter(|piece: Seq<u8>| piece.len() > 0),
    decreases pieces.len(),
{
    reveal(Seq::filter);
    if pieces.len() > 0 {
        lemma_filled(pieces.drop_last());
    }
}

/// Components stand one behind another, each behind a `\`.
pub proof fn law_components_stand_behind_one_another(
    head: Seq<u8>,
    parts: Seq<Seq<u8>>,
    last: Seq<u8>,
)
    ensures
        with_components(head, Seq::empty()) == head,
        with_components(head, parts.push(last)) == with_components(head, parts) + seq![92u8] + last,
{
    assert(parts.push(last).drop_last() == parts);
    assert(with_components(head, parts).push(92u8) == with_components(head, parts) + seq![92u8]);
}

/// What a device path starts with is the device's name.
pub proof fn law_a_device_path_starts_with_its_name(
    a: u8,
    b: u8,
    c: u8,
    name: Seq<u8>,
    rest: Seq<u8>,
)
    requires
        a == 47 || a == 92,
        b == 47 || b == 92,
        c == 47 || c == 92,
        forall|i: int| 0 <= i < name.len() ==> #[trigger] name[i] != 47 && name[i] != 92,
        rest.len() > 0 ==> rest[0] == 47 || rest[0] == 92,
    ensures
        prefix_len(seq![a, b, 46u8, c] + name + rest) == name.len() + 4,
{
    let p = seq![a, b, 46u8, c] + name + rest;
    assert(p[0] == a && p[1] == b && p[2] == 46 && p[3] == c);
    let y = p.skip(4);
    let n = name.len();
    assert forall|i: int| 0 <= i < n implies !ends_name(#[trigger] y[i], false) by {
        assert(y[i] == name[i]);
    }
    if rest.len() > 0 {
        assert(y[n as int] == rest[0]);
    }
    lemma_name_len_is(y, false, n);
}

/// A share needs both names: where the server's or the share's is empty, the
/// path is relative on Windows, whatever follows.
pub proof fn law_an_empty_name_is_no_share(
    a: u8,
    b: u8,
    server: Seq<u8>,
    c: u8,
    d: u8,
    rest: Seq<u8>,
)
    requires
        a == 47 || a == 92,
        b == 47 || b == 92,
        c == 47 || c == 92,
        d == 47 || d == 92,
        forall|i: int| 0 <= i < server.len() ==> #[trigger] server[i] != 47 && server[i] != 92,
        server != seq![DOT] && server != seq![QUESTION],
    ensures
        is_relative_path(seq![a, b, c] + rest, Platform::Windows),
        is_relative_path(seq![a, b] + server + seq![c, d] + rest, Platform::Windows),
{
    let p = seq![a, b, c] + rest;
    assert(p[0] == a && p[1] == b && p[2] == c);
    assert(p.skip(2)[0] == c);
    let q = seq![a, b] + server + seq![c, d] + rest;
    let y = q.skip(2);
    let n = server.len();
    assert(q[0] == a && q[1] == b);
    assert forall|i: int| 0 <= i < n implies !ends_name(#[trigger] y[i], false) by {
        assert(y[i] == server[i]);
    }
    assert(y[n as int] == c);
    lemma_name_len_is(y, false, n);
    assert(q.skip(n as int + 3)[0] == d);
    if n == 0 {
        assert(q[2] == c);
    } else {
        assert(q[2] == server[0]);
        if n == 1 {
            if server[0] == DOT {
                assert(server == seq![DOT]);
            }
            if server[0] == QUESTION {
                assert(server == seq![QUESTION]);
            }
        } else {
            assert(q[3] == server[1]);
        }
    }
}

} // verus!
