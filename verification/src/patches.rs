//! Patch backups of stashes: their names, and which of them are kept.
use crate::paths::{
    component, components, components_of, path_pieces, piece_components, same_path, RepoPath, DOT,
    HERE_RANK, NAME_RANK, ROOT_RANK, UP_RANK,
};
use crate::text::{concat2, concat3, ends_with, starts_with, texts, to_chars};
use crate::work::{Command, PatchEntry};
use vstd::prelude::*;

verus! {

/// Whether a character is a decimal digit.
pub open spec fn is_digit(c: char) -> bool {
    '0' <= c <= '9'
}

/// Whether a character is a lower-case letter.
pub open spec fn is_lower(c: char) -> bool {
    'a' <= c <= 'z'
}

/// Whether a text is a time stamp: year, month and day, a hyphen, and six
/// digits for the time. The year has four digits, or a sign and more of them.
pub open spec fn is_stamp(s: Seq<char>) -> bool {
    let n = s.len();
    &&& n >= 15
    &&& s[n - 7] == '-'
    &&& forall|i: int| n - 6 <= i < n ==> is_digit(#[trigger] s[i])
    &&& forall|i: int| 1 <= i < n - 7 ==> is_digit(#[trigger] s[i])
    &&& if n == 15 {
        is_digit(s[0])
    } else {
        s[0] == '+'
    }
}

/// Calls `chrono::Local::now` and writes the time with `DateTime::format`.
/// Claims that with this format, of year, month, day, hour, minute and second,
/// a time stamp is written: a clock that stands before 1970 is refused by a
/// panic, so the year is not negative, and one above 9999 has a plus sign.
/// Which digits come out depends on the clock and the time zone, and is left
/// unsaid.
#[verifier::external_body]
fn local_time(format: &str) -> (r: String)
    requires
        format@ == "%Y%m%d-%H%M%S"@,
    ensures
        is_stamp(r@),
{
    chrono::Local::now().format(format).to_string()
}

/// Whether a text is a lower-case word, a hyphen and two digits.
pub open spec fn is_haiku(s: Seq<char>) -> bool {
    let n = s.len();
    &&& n > 3
    &&& s[n - 3] == '-'
    &&& is_digit(s[n - 2]) && is_digit(s[n - 1])
    &&& forall|i: int| 0 <= i < n - 3 ==> is_lower(#[trigger] s[i])
}

/// Calls `xx::rand::haiku` for a number of words and two digits. Claims that
/// for one word it returns a lower-case word, a hyphen and two digits. Which
/// they are depends on chance, and is left unsaid.
#[verifier::external_body]
fn random_haiku(words: usize) -> (r: String)
    requires
        words == 1,
    ensures
        is_haiku(r@),
{
    xx::rand::haiku(&xx::rand::HaikuOptions { words, ..Default::default() })
}

/// The file name of a backup.
pub open spec fn patch_name(repo: Seq<char>, stamp: Seq<char>, haiku: Seq<char>) -> Seq<char> {
    repo + "-"@ + stamp + "-"@ + haiku + ".patch"@
}

/// Whether a file name is that of a backup of the repository.
pub open spec fn is_patch_name(name: Seq<char>, repo: Seq<char>) -> bool {
    exists|stamp: Seq<char>, haiku: Seq<char>|
        is_stamp(stamp) && is_haiku(haiku) && #[trigger] patch_name(repo, stamp, haiku) == name
}

/// Names a backup.
pub fn patch_file_name(repo: &str, stamp: &str, haiku: &str) -> (r: String)
    ensures
        r@ == patch_name(repo@, stamp@, haiku@),
{
    let head = concat3(repo, "-", stamp);
    let tail = concat3("-", haiku, ".patch");
    let r = concat2(head.as_str(), tail.as_str());
    proof {
        assert(r@ == patch_name(repo@, stamp@, haiku@));
    }
    r
}

/// Names a new backup, by the time and a random word.
pub fn new_patch_file_name(repo: &str) -> (r: String)
    ensures
        is_patch_name(r@, repo@),
{
    let stamp = local_time("%Y%m%d-%H%M%S");
    let haiku = random_haiku(1);
    let r = patch_file_name(repo, stamp.as_str(), haiku.as_str());
    proof {
        assert(patch_name(repo@, stamp@, haiku@) == r@);
    }
    r
}

/// Where the parts of a backup's name stand, counted from its end.
proof fn lemma_patch_name_parts(repo: Seq<char>, stamp: Seq<char>, haiku: Seq<char>)
    ensures
        ({
            let name = patch_name(repo, stamp, haiku);
            let h = name.len() - 6 - haiku.len();
            let t = h - 1 - stamp.len();
            &&& t == repo.len() + 1
            &&& name.subrange(0, repo.len() as int) == repo
            &&& name[t - 1] == '-'
            &&& name.subrange(t, h - 1) == stamp
            &&& name[h - 1] == '-'
            &&& name.subrange(h, name.len() - 6) == haiku
            &&& name.subrange(name.len() - 6, name.len() as int) == ".patch"@
        }),
{
    reveal_strlit("-");
    reveal_strlit(".patch");
    let name = patch_name(repo, stamp, haiku);
    let h = name.len() - 6 - haiku.len();
    let t = h - 1 - stamp.len();
    assert(name.subrange(0, repo.len() as int) == repo);
    assert(name.subrange(t, h - 1) == stamp);
    assert(name.subrange(h, name.len() - 6) == haiku);
    assert(name.subrange(name.len() - 6, name.len() as int) == ".patch"@);
}

/// Two ways to read a name agree on where the word starts.
proof fn lemma_one_haiku(x: Seq<char>, h: int, k: int)
    requires
        0 < h <= x.len(),
        0 < k <= x.len(),
        x[h - 1] == '-',
        x[k - 1] == '-',
        is_haiku(x.skip(h)),
        is_haiku(x.skip(k)),
    ensures
        h == k,
{
    if h < k {
        assert(x.skip(h)[k - 1 - h] == x[k - 1]);
    } else if k < h {
        assert(x.skip(k)[h - 1 - k] == x[h - 1]);
    }
}

/// Two ways to read a name agree on where the time stamp starts.
proof fn lemma_one_stamp(x: Seq<char>, h: int, k: int)
    requires
        0 < h <= x.len(),
        0 < k <= x.len(),
        x[h - 1] == '-',
        x[k - 1] == '-',
        is_stamp(x.skip(h)),
        is_stamp(x.skip(k)),
    ensures
        h == k,
{
    let a = x.skip(h);
    let b = x.skip(k);
    if h < k {
        assert(a[k - h] == b[0]);
        assert(a[k - 1 - h] == x[k - 1]);
    } else if k < h {
        assert(b[h - k] == a[0]);
        assert(b[h - 1 - k] == x[h - 1]);
    }
}

/// A backup belongs to one repository only.
pub proof fn law_a_patch_belongs_to_one_repository(
    a: Seq<char>,
    stamp: Seq<char>,
    haiku: Seq<char>,
    b: Seq<char>,
)
    requires
        is_stamp(stamp),
        is_haiku(haiku),
        is_patch_name(patch_name(a, stamp, haiku), b),
    ensures
        a == b,
{
    let name = patch_name(a, stamp, haiku);
    let (stamp2, haiku2): (Seq<char>, Seq<char>) = choose|s: Seq<char>, h: Seq<char>|
        is_stamp(s) && is_haiku(h) && #[trigger] patch_name(b, s, h) == name;
    lemma_patch_name_parts(a, stamp, haiku);
    lemma_patch_name_parts(b, stamp2, haiku2);
    let n = name.len() - 6;
    let x = name.take(n);
    let h1 = n - haiku.len();
    let h2 = n - haiku2.len();
    assert(x.skip(h1) == name.subrange(h1, n));
    assert(x.skip(h2) == name.subrange(h2, n));
    lemma_one_haiku(x, h1, h2);
    let y = name.take(h1 - 1);
    let t1 = h1 - 1 - stamp.len();
    let t2 = h1 - 1 - stamp2.len();
    assert(y.skip(t1) == name.subrange(t1, h1 - 1));
    assert(y.skip(t2) == name.subrange(t2, h1 - 1));
    lemma_one_stamp(y, t1, t2);
}

/// A backup that is named here is one that rotation finds again.
pub proof fn law_a_new_patch_is_found_again(repo: Seq<char>, stamp: Seq<char>, haiku: Seq<char>)
    requires
        is_stamp(stamp),
        is_haiku(haiku),
    ensures
        is_patch_name(patch_name(repo, stamp, haiku), repo),
{
}

/// Tells whether the characters from `from` to `to` are a time stamp.
fn stamps(s: &Vec<char>, from: usize, to: usize) -> (r: bool)
    requires
        from <= to <= s.len(),
    ensures
        r == is_stamp(s@.subrange(from as int, to as int)),
{
    let n: usize = to - from;
    let ghost x = s@.subrange(from as int, to as int);
    if n < 15 || s[to - 7] != '-' {
        return false;
    }
    if n == 15 {
        if !('0' <= s[from] && s[from] <= '9') {
            return false;
        }
    } else if s[from] != '+' {
        return false;
    }
    let mut i: usize = 1;
    while i < n
        invariant
            from <= to <= s.len(),
            n == to - from,
            n >= 15,
            1 <= i <= n,
            x == s@.subrange(from as int, to as int),
            forall|k: int| 1 <= k < i && k != n - 7 ==> is_digit(#[trigger] x[k]),
        decreases n - i,
    {
        if i != n - 7 && !('0' <= s[from + i] && s[from + i] <= '9') {
            proof {
                assert(x[i as int] == s@[from + i]);
            }
            return false;
        }
        i += 1;
    }
    true
}

/// Tells whether a file name is that of a backup of the repository.
pub fn names_patch(name: &str, repo: &str) -> (r: bool)
    ensures
        r == is_patch_name(name@, repo@),
{
    let prefix = concat2(repo, "-");
    proof {
        reveal_strlit("-");
        reveal_strlit(".patch");
        if is_patch_name(name@, repo@) {
            let (s, h): (Seq<char>, Seq<char>) = choose|s: Seq<char>, h: Seq<char>|
                is_stamp(s) && is_haiku(h) && #[trigger] patch_name(repo@, s, h) == name@;
            lemma_patch_name_parts(repo@, s, h);
            assert(name@.subrange(0, prefix@.len() as int) == prefix@);
        }
    }
    if !starts_with(name, prefix.as_str()) || !ends_with(name, ".patch") {
        return false;
    }
    let chars = to_chars(name);
    let start: usize = to_chars(prefix.as_str()).len();
    let n: usize = chars.len() - 6;
    // The shortest word, two hyphens and two digits follow a time stamp.
    if n < start || n - start < 20 {
        proof {
            if is_patch_name(name@, repo@) {
                let (s, h): (Seq<char>, Seq<char>) = choose|s: Seq<char>, h: Seq<char>|
                    is_stamp(s) && is_haiku(h) && #[trigger] patch_name(repo@, s, h) == name@;
                lemma_patch_name_parts(repo@, s, h);
            }
        }
        return false;
    }
    let mut at: usize = n - 3;
    while at > start && 'a' <= chars[at - 1] && chars[at - 1] <= 'z'
        invariant
            start <= at <= n - 3,
            n == chars.len() - 6,
            n >= start + 20,
            forall|k: int| at <= k < n - 3 ==> is_lower(#[trigger] chars@[k]),
        decreases at,
    {
        at -= 1;
    }
    let worded = at < n - 3 && chars[n - 3] == '-' && '0' <= chars[n - 2] && chars[n - 2] <= '9'
        && '0' <= chars[n - 1] && chars[n - 1] <= '9';
    let r = worded && at > start && chars[at - 1] == '-' && stamps(&chars, start, at - 1);
    proof {
        let ghost text = name@;
        if r {
            let stamp = text.subrange(start as int, at - 1);
            let haiku = text.subrange(at as int, n as int);
            assert(is_haiku(haiku));
            assert(text.subrange(0, start as int) == prefix@);
            assert(text.subrange(n as int, text.len() as int) == ".patch"@);
            assert(text == patch_name(repo@, stamp, haiku));
        }
        if is_patch_name(text, repo@) {
            let (s, h): (Seq<char>, Seq<char>) = choose|s: Seq<char>, h: Seq<char>|
                is_stamp(s) && is_haiku(h) && #[trigger] patch_name(repo@, s, h) == text;
            lemma_patch_name_parts(repo@, s, h);
            let k = n - h.len();
            assert forall|i: int| k <= i < n - 3 implies is_lower(#[trigger] text[i]) by {
                assert(h[i - k] == text[i]);
            }
            assert(h[h.len() - 3] == text[n - 3]);
            assert(h[h.len() - 2] == text[n - 2]);
            assert(h[h.len() - 1] == text[n - 1]);
            assert(text[k - 1] == '-');
            assert(at == k) by {
                if at < k {
                    assert(is_lower(text[k - 1]));
                } else if at > k {
                    assert(is_lower(text[at - 1]));
                }
            }
            assert(text.subrange(start as int, at - 1) == s);
        }
    }
    r
}

/// Whether a byte stands for itself in the name of a repository: a letter, a
/// digit, a hyphen, a dot or an underscore.
pub open spec fn is_plain(b: u8) -> bool {
    48 <= b <= 57 || 65 <= b <= 90 || 97 <= b <= 122 || b == 45 || b == 46 || b == 95
}

/// The hexadecimal digit of a number below sixteen.
pub open spec fn hex(n: int) -> char {
    if n < 10 {
        (48 + n) as char
    } else {
        (55 + n) as char
    }
}

/// A byte in the name of a repository.
pub open spec fn escaped_byte(b: u8) -> Seq<char> {
    if is_plain(b) {
        seq![b as char]
    } else {
        seq!['%', hex(b as int / 16), hex(b as int % 16)]
    }
}

/// Bytes in the name of a repository.
pub open spec fn escaped(s: Seq<u8>) -> Seq<char>
    decreases s.len(),
{
    if s.len() == 0 {
        Seq::empty()
    } else {
        escaped_byte(s[0]) + escaped(s.drop_first())
    }
}

/// A component of a path in the name of a repository.
pub open spec fn component_text(c: Seq<u8>) -> Seq<char> {
    if c.len() == 0 || c[0] == ROOT_RANK {
        Seq::empty()
    } else if c[0] == HERE_RANK {
        seq!['.']
    } else if c[0] == UP_RANK {
        seq!['.', '.']
    } else {
        escaped(c.skip(1))
    }
}

/// The components of a path, each behind a plus sign.
pub open spec fn components_text(list: Seq<Seq<u8>>) -> Seq<char>
    decreases list.len(),
{
    if list.len() == 0 {
        Seq::empty()
    } else {
        components_text(list.drop_last()).push('+') + component_text(list.last())
    }
}

/// The name of a repository, by its directory: one that can be a file name,
/// and that no other directory has.
pub open spec fn repo_name_of(dir: Seq<u8>) -> Seq<char> {
    components_text(components(dir))
}

/// What a component of a path can be.
pub open spec fn is_component(c: Seq<u8>) -> bool {
    ||| c == seq![ROOT_RANK]
    ||| c == seq![HERE_RANK]
    ||| c == seq![UP_RANK]
    ||| {
        &&& c.len() > 1 && c[0] == NAME_RANK
        &&& c.skip(1) != seq![DOT] && c.skip(1) != seq![DOT, DOT]
    }
}

proof fn lemma_piece_components(pieces: Seq<Seq<u8>>)
    ensures
        forall|i: int|
            0 <= i < piece_components(pieces).len() ==> is_component(
                #[trigger] piece_components(pieces)[i],
            ),
    decreases pieces.len(),
{
    if pieces.len() > 0 {
        lemma_piece_components(pieces.drop_last());
        if let Some(c) = component(pieces.last(), pieces.len() == 1) {
            assert(c.skip(1) == pieces.last() || c[0] != NAME_RANK) by {
                if c == seq![NAME_RANK] + pieces.last() {
                    assert(c.skip(1) == pieces.last());
                }
            }
            assert(is_component(c));
            let before = piece_components(pieces.drop_last());
            assert forall|i: int| 0 <= i < piece_components(pieces).len() implies is_component(
                #[trigger] piece_components(pieces)[i],
            ) by {
                if i < before.len() {
                    assert(piece_components(pieces)[i] == before[i]);
                }
            }
        }
    }
}

proof fn lemma_components(p: Seq<u8>)
    ensures
        forall|i: int|
            0 <= i < components(p).len() ==> is_component(#[trigger] components(p)[i]),
{
    lemma_piece_components(path_pieces(p));
}

proof fn lemma_hex(a: u8, b: u8)
    requires
        hex(a as int / 16) == hex(b as int / 16),
        hex(a as int % 16) == hex(b as int % 16),
    ensures
        a == b,
{
}

proof fn lemma_escaped_differs(a: Seq<u8>, b: Seq<u8>)
    requires
        escaped(a) == escaped(b),
    ensures
        a == b,
    decreases a.len(),
{
    let x = escaped(a);
    if a.len() == 0 || b.len() == 0 {
        if a.len() > 0 {
            assert(escaped_byte(a[0]).len() > 0);
        }
        if b.len() > 0 {
            assert(escaped_byte(b[0]).len() > 0);
        }
        assert(a == b);
    } else {
        let p = escaped_byte(a[0]);
        let q = escaped_byte(b[0]);
        assert(x[0] == p[0] && x[0] == q[0]);
        assert(p.len() == q.len());
        if p.len() == 3 {
            assert(x[1] == p[1] && x[1] == q[1]);
            assert(x[2] == p[2] && x[2] == q[2]);
            lemma_hex(a[0], b[0]);
        }
        assert(a[0] == b[0]);
        assert(x.skip(p.len() as int) == escaped(a.drop_first()));
        assert(x.skip(q.len() as int) == escaped(b.drop_first()));
        lemma_escaped_differs(a.drop_first(), b.drop_first());
        assert(a == seq![a[0]] + a.drop_first());
        assert(b == seq![b[0]] + b.drop_first());
    }
}

proof fn lemma_escaped_signs(s: Seq<u8>)
    ensures
        forall|i: int| 0 <= i < escaped(s).len() ==> #[trigger] escaped(s)[i] != '+',
        s.len() > 0 ==> escaped(s).len() > 0,
    decreases s.len(),
{
    if s.len() > 0 {
        lemma_escaped_signs(s.drop_first());
        let p = escaped_byte(s[0]);
        let rest = escaped(s.drop_first());
        assert forall|i: int| 0 <= i < escaped(s).len() implies #[trigger] escaped(s)[i]
            != '+' by {
            if i >= p.len() {
                assert(escaped(s)[i] == rest[i - p.len()]);
            }
        }
    }
}

proof fn lemma_dots_escaped()
    ensures
        escaped(seq![DOT]) == seq!['.'],
        escaped(seq![DOT, DOT]) == seq!['.', '.'],
{
    reveal_with_fuel(escaped, 3);
    assert(seq![DOT].drop_first() == Seq::<u8>::empty());
    assert(seq![DOT, DOT].drop_first() == seq![DOT]);
    assert(escaped(seq![DOT]) == seq!['.']);
    assert(escaped(seq![DOT, DOT]) == seq!['.', '.']);
}

proof fn lemma_component_text(a: Seq<u8>, b: Seq<u8>)
    requires
        is_component(a),
        is_component(b),
        component_text(a) == component_text(b),
    ensures
        a == b,
{
    lemma_dots_escaped();
    lemma_escaped_signs(a.skip(1));
    lemma_escaped_signs(b.skip(1));
    if a[0] == NAME_RANK {
        if b[0] == NAME_RANK {
            lemma_escaped_differs(a.skip(1), b.skip(1));
            assert(a == seq![a[0]] + a.skip(1));
            assert(b == seq![b[0]] + b.skip(1));
        } else if b[0] == HERE_RANK {
            lemma_escaped_differs(a.skip(1), seq![DOT]);
        } else if b[0] == UP_RANK {
            lemma_escaped_differs(a.skip(1), seq![DOT, DOT]);
        }
    } else if b[0] == NAME_RANK {
        if a[0] == HERE_RANK {
            lemma_escaped_differs(b.skip(1), seq![DOT]);
        } else if a[0] == UP_RANK {
            lemma_escaped_differs(b.skip(1), seq![DOT, DOT]);
        }
    } else {
        assert(component_text(a).len() == component_text(b).len());
    }
}

proof fn lemma_components_text(a: Seq<Seq<u8>>, b: Seq<Seq<u8>>)
    requires
        forall|i: int| 0 <= i < a.len() ==> is_component(#[trigger] a[i]),
        forall|i: int| 0 <= i < b.len() ==> is_component(#[trigger] b[i]),
        components_text(a) == components_text(b),
    ensures
        a == b,
    decreases a.len(),
{
    if a.len() == 0 || b.len() == 0 {
        assert(a == b);
    } else {
        let x = components_text(a);
        let s = component_text(a.last());
        let t = component_text(b.last());
        let p = components_text(a.drop_last());
        let q = components_text(b.drop_last());
        lemma_escaped_signs(a.last().skip(1));
        lemma_escaped_signs(b.last().skip(1));
        assert(x == p.push('+') + s);
        assert(x == q.push('+') + t);
        assert(x[p.len() as int] == '+');
        assert(x[q.len() as int] == '+');
        if p.len() < q.len() {
            assert(x[q.len() as int] == s[q.len() - p.len() - 1]);
        } else if q.len() < p.len() {
            assert(x[p.len() as int] == t[p.len() - q.len() - 1]);
        }
        assert(x.take(p.len() as int) == p);
        assert(x.take(q.len() as int) == q);
        assert(x.skip(p.len() as int + 1) == s);
        assert(x.skip(q.len() as int + 1) == t);
        assert(is_component(a[a.len() - 1]) && is_component(b[b.len() - 1]));
        lemma_component_text(a.last(), b.last());
        lemma_components_text(a.drop_last(), b.drop_last());
        assert(a == a.drop_last().push(a.last()));
        assert(b == b.drop_last().push(b.last()));
    }
}

/// Two repositories of one name are in one directory.
pub proof fn law_repository_names_are_unique(a: Seq<u8>, b: Seq<u8>)
    requires
        repo_name_of(a) == repo_name_of(b),
    ensures
        same_path(a, b),
{
    lemma_components(a);
    lemma_components(b);
    lemma_components_text(components(a), components(b));
}

/// Writes a hexadecimal digit.
fn write_hex(n: u8) -> (r: char)
    requires
        n < 16,
    ensures
        r == hex(n as int),
{
    if n < 10 {
        (48 + n) as char
    } else {
        (55 + n) as char
    }
}

/// Appends bytes to a name, from `from` on.
fn push_escaped(out: String, s: &Vec<u8>, from: usize) -> (r: String)
    requires
        from <= s.len(),
    ensures
        r@ == out@ + escaped(s@.skip(from as int)),
{
    let mut out = out;
    let ghost start = out@;
    let ghost all = escaped(s@.skip(from as int));
    let mut i: usize = from;
    while i < s.len()
        invariant
            from <= i <= s.len(),
            out@ + escaped(s@.skip(i as int)) == start + all,
        decreases s.len() - i,
    {
        let b = s[i];
        let ghost was = out@;
        proof {
            assert(s@.skip(i as int)[0] == b);
            assert(s@.skip(i as int).drop_first() == s@.skip(i + 1));
        }
        if (48 <= b && b <= 57) || (65 <= b && b <= 90) || (97 <= b && b <= 122) || b == 45 || b
            == 46 || b == 95 {
            out.push(b as char);
        } else {
            out.push('%');
            out.push(write_hex(b / 16));
            out.push(write_hex(b % 16));
        }
        proof {
            assert(out@ == was + escaped_byte(b));
            assert(was + (escaped_byte(b) + escaped(s@.skip(i + 1))) == out@ + escaped(
                s@.skip(i + 1),
            ));
        }
        i += 1;
    }
    proof {
        assert(s@.skip(i as int).len() == 0);
        assert(out@ + escaped(s@.skip(i as int)) == out@);
    }
    out
}

/// Names a repository by its directory.
pub fn repo_name(dir: &RepoPath) -> (r: String)
    ensures
        r@ == repo_name_of(dir@),
{
    let list = components_of(&dir.raw);
    let ghost all = components(dir@);
    let mut out = String::new();
    let mut i: usize = 0;
    proof {
        assert(out@ == components_text(all.take(0)));
        lemma_components(dir@);
    }
    while i < list.len()
        invariant
            i <= list.len(),
            all == Seq::new(list@.len(), |k: int| list@[k]@),
            forall|k: int| 0 <= k < all.len() ==> is_component(#[trigger] all[k]),
            out@ == components_text(all.take(i as int)),
        decreases list.len() - i,
    {
        let ghost was = out@;
        proof {
            assert(all.take(i + 1).drop_last() == all.take(i as int));
            assert(all.take(i + 1).last() == list@[i as int]@);
            assert(is_component(all[i as int]));
        }
        out.push('+');
        let rank = list[i][0];
        if rank == HERE_RANK {
            out.push('.');
        } else if rank == UP_RANK {
            out.push('.');
            out.push('.');
        } else if rank == NAME_RANK {
            out = push_escaped(out, &list[i], 1);
        }
        proof {
            assert(out@ == was.push('+') + component_text(all[i as int]));
        }
        i += 1;
    }
    proof {
        assert(all.take(all.len() as int) == all);
    }
    out
}

/// The command that prints a stash entry as a patch.
pub fn show_patch(stash_ref: &str, include_untracked: bool) -> (r: Command)
    ensures
        r.says(
            if include_untracked {
                seq!["stash"@, "show"@, "-p"@, "--include-untracked"@, stash_ref@]
            } else {
                seq!["stash"@, "show"@, "-p"@, stash_ref@]
            },
        ),
{
    Command::of(&["stash", "show", "-p"]).with_if(include_untracked, "--include-untracked").with(
        stash_ref,
    )
}

/// A backup: its file name and the time of its last change.
pub struct Patch {
    /// The file name.
    pub name: Seq<char>,
    /// The time of the last change.
    pub modified: int,
}

/// The backup that a directory entry is, if it is one of the repository.
pub open spec fn patch_of(e: PatchEntry, repo: Seq<char>) -> Option<Patch> {
    match (e.name, e.modified) {
        (Some(name), Some(modified)) => if is_patch_name(name@, repo) {
            Some(Patch { name: name@, modified: modified as int })
        } else {
            None
        },
        _ => None,
    }
}

/// Backups, newest first, with `p` put after those that are not older.
pub open spec fn placed(list: Seq<Patch>, p: Patch) -> Seq<Patch>
    decreases list.len(),
{
    if list.len() == 0 {
        seq![p]
    } else if list.last().modified >= p.modified {
        list.push(p)
    } else {
        placed(list.drop_last(), p).push(list.last())
    }
}

/// The backups among directory entries, newest first; of the same age, in the
/// order of the entries.
pub open spec fn newest_first(list: Seq<PatchEntry>, repo: Seq<char>) -> Seq<Patch>
    decreases list.len(),
{
    if list.len() == 0 {
        Seq::empty()
    } else {
        let before = newest_first(list.drop_last(), repo);
        match patch_of(list.last(), repo) {
            Some(p) => placed(before, p),
            None => before,
        }
    }
}

/// The file names of backups.
pub open spec fn patch_names(list: Seq<Patch>) -> Seq<Seq<char>> {
    Seq::new(list.len(), |i: int| list[i].name)
}

/// The backups to remove: all but the newest `keep`.
pub open spec fn outdated(list: Seq<PatchEntry>, repo: Seq<char>, keep: nat) -> Seq<Seq<char>> {
    let all = newest_first(list, repo);
    if keep >= all.len() {
        Seq::empty()
    } else {
        patch_names(all.skip(keep as int))
    }
}

/// Whether backups stand newest first.
pub open spec fn falling(list: Seq<Patch>) -> bool {
    forall|i: int, j: int|
        0 <= i < j < list.len() ==> (#[trigger] list[i]).modified >= (#[trigger] list[j]).modified
}

/// What the names and times of backups hold.
spec fn held(names: Seq<String>, times: Seq<i128>) -> Seq<Patch> {
    Seq::new(names.len(), |i: int| Patch { name: names[i]@, modified: times[i] as int })
}

proof fn lemma_placed_at(list: Seq<Patch>, p: Patch, at: int)
    requires
        falling(list),
        0 <= at <= list.len(),
        forall|i: int| 0 <= i < at ==> (#[trigger] list[i]).modified >= p.modified,
        at < list.len() ==> list[at].modified < p.modified,
    ensures
        placed(list, p) == list.insert(at, p),
    decreases list.len(),
{
    if list.len() == 0 {
        assert(list.insert(at, p) == seq![p]);
    } else if at == list.len() {
        assert(list[list.len() - 1].modified >= p.modified);
        assert(list.insert(at, p) == list.push(p));
    } else {
        assert(list[at].modified >= list[list.len() - 1].modified);
        let rest = list.drop_last();
        if at < rest.len() {
            assert(rest[at] == list[at]);
        }
        lemma_placed_at(rest, p, at);
        assert(list.insert(at, p) == rest.insert(at, p).push(list.last()));
    }
}

proof fn lemma_placed_falls(list: Seq<Patch>, p: Patch)
    requires
        falling(list),
    ensures
        falling(placed(list, p)),
        placed(list, p).len() == list.len() + 1,
        forall|i: int|
            0 <= i < placed(list, p).len() ==> (#[trigger] placed(list, p)[i] == p
                || list.contains(placed(list, p)[i])),
    decreases list.len(),
{
    let all = placed(list, p);
    if list.len() > 0 {
        let last = list.last();
        assert(list[list.len() - 1] == last);
        if last.modified >= p.modified {
            assert forall|i: int| 0 <= i < all.len() implies #[trigger] all[i] == p
                || list.contains(all[i]) by {
                if i < list.len() {
                    assert(all[i] == list[i]);
                }
            }
        } else {
            let rest = list.drop_last();
            lemma_placed_falls(rest, p);
            let grown = placed(rest, p);
            assert(all == grown.push(last));
            assert forall|i: int| 0 <= i < grown.len() implies (#[trigger] grown[i]).modified
                >= last.modified by {
                if grown[i] != p {
                    let k = choose|k: int| 0 <= k < rest.len() && rest[k] == grown[i];
                    assert(list[k] == grown[i]);
                }
            }
            assert forall|i: int| 0 <= i < all.len() implies #[trigger] all[i] == p
                || list.contains(all[i]) by {
                if i < grown.len() {
                    if all[i] != p {
                        assert(grown[i] == all[i]);
                        let k = choose|k: int| 0 <= k < rest.len() && rest[k] == grown[i];
                        assert(list[k] == all[i]);
                    }
                } else {
                    assert(list[list.len() - 1] == all[i]);
                }
            }
        }
    }
}

/// Backups are put newest first.
pub proof fn law_newest_come_first(list: Seq<PatchEntry>, repo: Seq<char>)
    ensures
        falling(newest_first(list, repo)),
    decreases list.len(),
{
    if list.len() > 0 {
        let rest = list.drop_last();
        law_newest_come_first(rest, repo);
        if let Some(p) = patch_of(list.last(), repo) {
            lemma_placed_falls(newest_first(rest, repo), p);
        }
    }
}

/// Rotation removes no backup that is newer than one it keeps, and keeps as
/// many as it is told, or all there are.
pub proof fn law_rotation_keeps_the_newest(list: Seq<PatchEntry>, repo: Seq<char>, keep: nat)
    ensures
        ({
            let all = newest_first(list, repo);
            let gone = outdated(list, repo, keep);
            &&& gone.len() == (if keep >= all.len() {
                0
            } else {
                all.len() - keep
            })
            &&& forall|i: int, j: int|
                0 <= i < keep <= j < all.len() ==> (#[trigger] all[i]).modified
                    >= (#[trigger] all[j]).modified
            &&& forall|j: int|
                0 <= j < gone.len() ==> #[trigger] gone[j] == all[keep + j].name
        }),
{
    law_newest_come_first(list, repo);
}

/// A backup that is put in order is one of the entries.
proof fn lemma_patch_is_listed(list: Seq<PatchEntry>, repo: Seq<char>, i: int)
    requires
        0 <= i < newest_first(list, repo).len(),
    ensures
        exists|k: int|
            0 <= k < list.len() && patch_of(#[trigger] list[k], repo) == Some(
                newest_first(list, repo)[i],
            ),
    decreases list.len(),
{
    if list.len() > 0 {
        let rest = list.drop_last();
        let before = newest_first(rest, repo);
        let all = newest_first(list, repo);
        let found = match patch_of(list.last(), repo) {
            Some(p) => all[i] == p,
            None => false,
        };
        if found {
            assert(list[list.len() - 1] == list.last());
        } else {
            law_newest_come_first(rest, repo);
            if let Some(p) = patch_of(list.last(), repo) {
                lemma_placed_falls(before, p);
                assert(all[i] == placed(before, p)[i]);
            } else {
                assert(before[i] == all[i]);
            }
            let j = choose|j: int| 0 <= j < before.len() && before[j] == all[i];
            lemma_patch_is_listed(rest, repo, j);
            let k = choose|k: int|
                0 <= k < rest.len() && patch_of(#[trigger] rest[k], repo) == Some(before[j]);
            assert(list[k] == rest[k]);
        }
    }
}

/// Rotation removes only files that are listed, and of those only backups of
/// the repository.
pub proof fn law_rotation_removes_only_backups(
    list: Seq<PatchEntry>,
    repo: Seq<char>,
    keep: nat,
    j: int,
)
    requires
        0 <= j < outdated(list, repo, keep).len(),
    ensures
        is_patch_name(outdated(list, repo, keep)[j], repo),
        exists|k: int|
            0 <= k < list.len() && (#[trigger] list[k]).name is Some && list[k].name->0@
                == outdated(list, repo, keep)[j],
{
    let all = newest_first(list, repo);
    lemma_patch_is_listed(list, repo, keep + j);
    let k = choose|k: int|
        0 <= k < list.len() && patch_of(#[trigger] list[k], repo) == Some(all[keep + j]);
    assert(outdated(list, repo, keep)[j] == all[keep + j].name);
    assert(list[k].name->0@ == all[keep + j].name);
}

/// Rotation for one directory removes no backup of another one.
pub proof fn law_rotation_spares_other_repositories(
    list: Seq<PatchEntry>,
    dir: Seq<u8>,
    keep: nat,
    j: int,
    other: Seq<u8>,
    stamp: Seq<char>,
    haiku: Seq<char>,
)
    requires
        0 <= j < outdated(list, repo_name_of(dir), keep).len(),
        is_stamp(stamp),
        is_haiku(haiku),
        outdated(list, repo_name_of(dir), keep)[j] == patch_name(
            repo_name_of(other),
            stamp,
            haiku,
        ),
    ensures
        same_path(dir, other),
{
    law_rotation_removes_only_backups(list, repo_name_of(dir), keep, j);
    law_a_patch_belongs_to_one_repository(
        repo_name_of(other),
        stamp,
        haiku,
        repo_name_of(dir),
    );
    law_repository_names_are_unique(dir, other);
}

/// What is listed once files of some names are removed.
pub open spec fn left_over(list: Seq<PatchEntry>, gone: Seq<Seq<char>>) -> Seq<PatchEntry>
    decreases list.len(),
{
    if list.len() == 0 {
        Seq::empty()
    } else {
        let before = left_over(list.drop_last(), gone);
        if list.last().name is Some && gone.contains(list.last().name->0@) {
            before
        } else {
            before.push(list.last())
        }
    }
}

/// The backups whose names are not among some names.
spec fn kept(list: Seq<Patch>, gone: Seq<Seq<char>>) -> Seq<Patch>
    decreases list.len(),
{
    if list.len() == 0 {
        Seq::empty()
    } else {
        let before = kept(list.drop_last(), gone);
        if gone.contains(list.last().name) {
            before
        } else {
            before.push(list.last())
        }
    }
}

proof fn lemma_kept_within(list: Seq<Patch>, gone: Seq<Seq<char>>)
    ensures
        kept(list, gone).len() <= list.len(),
        forall|i: int|
            0 <= i < kept(list, gone).len() ==> list.contains(#[trigger] kept(list, gone)[i]),
    decreases list.len(),
{
    if list.len() > 0 {
        let rest = list.drop_last();
        let before = kept(rest, gone);
        lemma_kept_within(rest, gone);
        assert forall|i: int| 0 <= i < kept(list, gone).len() implies list.contains(
            #[trigger] kept(list, gone)[i],
        ) by {
            if i < before.len() {
                assert(kept(list, gone)[i] == before[i]);
                let k = choose|k: int| 0 <= k < rest.len() && rest[k] == before[i];
                assert(list[k] == before[i]);
            } else {
                assert(list[list.len() - 1] == list.last());
            }
        }
    }
}

/// Removing and putting in order can be done in either order.
proof fn lemma_kept_placed(list: Seq<Patch>, p: Patch, gone: Seq<Seq<char>>)
    requires
        falling(list),
    ensures
        kept(placed(list, p), gone) == (if gone.contains(p.name) {
            kept(list, gone)
        } else {
            placed(kept(list, gone), p)
        }),
    decreases list.len(),
{
    let all = placed(list, p);
    let rest = list.drop_last();
    if list.len() == 0 {
        assert(all.drop_last() == list);
        assert(all.last() == p);
        assert(kept(list, gone) == Seq::<Patch>::empty());
        assert(kept(list, gone).push(p) == seq![p]);
    } else if list.last().modified >= p.modified {
        assert(all.drop_last() == list);
        assert(all.last() == p);
        lemma_kept_within(list, gone);
        let k = kept(list, gone);
        if k.len() > 0 {
            assert(list.contains(k[k.len() - 1]));
            let i = choose|i: int| 0 <= i < list.len() && list[i] == k.last();
            if i < list.len() - 1 {
                assert(list[i].modified >= list[list.len() - 1].modified);
            }
            assert(k.last().modified >= p.modified);
        } else {
            assert(k.push(p) == seq![p]);
        }
    } else {
        lemma_kept_placed(rest, p, gone);
        assert(all.drop_last() == placed(rest, p));
        assert(all.last() == list.last());
        let k = kept(list, gone);
        if !gone.contains(list.last().name) {
            assert(k.drop_last() == kept(rest, gone));
        }
    }
}

proof fn lemma_left_over(list: Seq<PatchEntry>, repo: Seq<char>, gone: Seq<Seq<char>>)
    ensures
        newest_first(left_over(list, gone), repo) == kept(newest_first(list, repo), gone),
    decreases list.len(),
{
    if list.len() > 0 {
        let rest = list.drop_last();
        let e = list.last();
        lemma_left_over(rest, repo, gone);
        law_newest_come_first(rest, repo);
        let before = left_over(rest, gone);
        assert(before.push(e).drop_last() == before);
        if let Some(p) = patch_of(e, repo) {
            lemma_kept_placed(newest_first(rest, repo), p, gone);
        }
    }
}

proof fn lemma_kept_count(list: Seq<Patch>, gone: Seq<Seq<char>>, keep: nat)
    requires
        forall|j: int| keep <= j < list.len() ==> gone.contains((#[trigger] list[j]).name),
    ensures
        kept(list, gone).len() <= keep,
        keep <= list.len() ==> kept(list, gone) == kept(list.take(keep as int), gone),
    decreases list.len(),
{
    lemma_kept_within(list, gone);
    if list.len() > keep {
        let rest = list.drop_last();
        assert(list[list.len() - 1] == list.last());
        assert forall|j: int| keep <= j < rest.len() implies gone.contains(
            (#[trigger] rest[j]).name,
        ) by {
            assert(rest[j] == list[j]);
        }
        lemma_kept_count(rest, gone, keep);
        assert(rest.take(keep as int) == list.take(keep as int));
    } else if list.len() == keep {
        assert(list.take(keep as int) == list);
    }
}

/// The names of the backups to remove.
proof fn lemma_outdated_names(list: Seq<PatchEntry>, repo: Seq<char>, keep: nat)
    ensures
        ({
            let all = newest_first(list, repo);
            let gone = outdated(list, repo, keep);
            forall|j: int| keep <= j < all.len() ==> gone.contains((#[trigger] all[j]).name)
        }),
{
    let all = newest_first(list, repo);
    let gone = outdated(list, repo, keep);
    assert forall|j: int| keep <= j < all.len() implies gone.contains(
        (#[trigger] all[j]).name,
    ) by {
        assert(gone[j - keep] == all[j].name);
    }
}

/// A second rotation removes nothing.
pub proof fn law_a_second_rotation_removes_nothing(
    list: Seq<PatchEntry>,
    repo: Seq<char>,
    keep: nat,
)
    ensures
        outdated(left_over(list, outdated(list, repo, keep)), repo, keep).len() == 0,
{
    let gone = outdated(list, repo, keep);
    lemma_left_over(list, repo, gone);
    lemma_outdated_names(list, repo, keep);
    lemma_kept_count(newest_first(list, repo), gone, keep);
}

/// Whether no two entries have one name, as in a directory.
pub open spec fn distinct_entries(list: Seq<PatchEntry>) -> bool {
    forall|i: int, j: int|
        0 <= i < j < list.len() && (#[trigger] list[i]).name is Some && (
        #[trigger] list[j]).name is Some ==> list[i].name->0@ != list[j].name->0@
}

/// Whether no two backups have one name.
spec fn distinct_patches(list: Seq<Patch>) -> bool {
    forall|i: int, j: int|
        0 <= i < j < list.len() ==> (#[trigger] list[i]).name != (#[trigger] list[j]).name
}

proof fn lemma_placed_distinct(list: Seq<Patch>, p: Patch)
    requires
        falling(list),
        distinct_patches(list),
        forall|i: int| 0 <= i < list.len() ==> (#[trigger] list[i]).name != p.name,
    ensures
        distinct_patches(placed(list, p)),
    decreases list.len(),
{
    if list.len() > 0 && list.last().modified < p.modified {
        let rest = list.drop_last();
        lemma_placed_distinct(rest, p);
        lemma_placed_falls(rest, p);
        let grown = placed(rest, p);
        assert(list[list.len() - 1] == list.last());
        assert forall|i: int| 0 <= i < grown.len() implies (#[trigger] grown[i]).name
            != list.last().name by {
            if grown[i] != p {
                let k = choose|k: int| 0 <= k < rest.len() && rest[k] == grown[i];
                assert(list[k] == grown[i]);
            }
        }
    }
}

proof fn lemma_newest_first_distinct(list: Seq<PatchEntry>, repo: Seq<char>)
    requires
        distinct_entries(list),
    ensures
        distinct_patches(newest_first(list, repo)),
    decreases list.len(),
{
    if list.len() > 0 {
        let rest = list.drop_last();
        assert forall|i: int, j: int|
            0 <= i < j < rest.len() && (#[trigger] rest[i]).name is Some && (
            #[trigger] rest[j]).name is Some implies rest[i].name->0@ != rest[j].name->0@ by {
            assert(rest[i] == list[i] && rest[j] == list[j]);
        }
        lemma_newest_first_distinct(rest, repo);
        law_newest_come_first(rest, repo);
        if let Some(p) = patch_of(list.last(), repo) {
            let before = newest_first(rest, repo);
            assert forall|i: int| 0 <= i < before.len() implies (#[trigger] before[i]).name
                != p.name by {
                lemma_patch_is_listed(rest, repo, i);
                let k = choose|k: int|
                    0 <= k < rest.len() && patch_of(#[trigger] rest[k], repo) == Some(before[i]);
                assert(rest[k] == list[k]);
                assert(list[list.len() - 1] == list.last());
            }
            lemma_placed_distinct(before, p);
        }
    }
}

proof fn lemma_none_gone(list: Seq<Patch>, gone: Seq<Seq<char>>)
    requires
        forall|i: int| 0 <= i < list.len() ==> !gone.contains((#[trigger] list[i]).name),
    ensures
        kept(list, gone) == list,
    decreases list.len(),
{
    if list.len() > 0 {
        let rest = list.drop_last();
        assert(list[list.len() - 1] == list.last());
        assert forall|i: int| 0 <= i < rest.len() implies !gone.contains(
            (#[trigger] rest[i]).name,
        ) by {
            assert(rest[i] == list[i]);
        }
        lemma_none_gone(rest, gone);
        assert(rest.push(list.last()) == list);
    }
}

/// In a directory, rotation leaves the newest backups: as many as it is told,
/// or all there are.
pub proof fn law_rotation_leaves_as_many_as_told(
    list: Seq<PatchEntry>,
    repo: Seq<char>,
    keep: nat,
)
    requires
        distinct_entries(list),
    ensures
        ({
            let all = newest_first(list, repo);
            let left = newest_first(left_over(list, outdated(list, repo, keep)), repo);
            left == (if keep >= all.len() {
                all
            } else {
                all.take(keep as int)
            })
        }),
{
    let all = newest_first(list, repo);
    let gone = outdated(list, repo, keep);
    lemma_left_over(list, repo, gone);
    lemma_newest_first_distinct(list, repo);
    lemma_outdated_names(list, repo, keep);
    lemma_kept_count(all, gone, keep);
    let first = if keep >= all.len() {
        all
    } else {
        all.take(keep as int)
    };
    assert forall|i: int| 0 <= i < first.len() implies !gone.contains(
        (#[trigger] first[i]).name,
    ) by {
        assert(first[i] == all[i]);
        if gone.contains(first[i].name) {
            let j = choose|j: int| 0 <= j < gone.len() && gone[j] == first[i].name;
            assert(gone[j] == all[keep + j].name);
            assert(all[i].name != all[keep + j].name);
        }
    }
    lemma_none_gone(first, gone);
}

/// Chooses the backups of a repository to remove, so that the newest `keep`
/// are left.
pub fn rotate_patch_files(list: &Vec<PatchEntry>, repo: &str, keep: usize) -> (r: Vec<String>)
    ensures
        texts(r@) == outdated(list@, repo@, keep as nat),
{
    let mut names: Vec<String> = Vec::new();
    let mut times: Vec<i128> = Vec::new();
    let mut i: usize = 0;
    proof {
        assert(held(names@, times@) == newest_first(list@.take(0), repo@));
    }
    while i < list.len()
        invariant
            i <= list.len(),
            names.len() == times.len(),
            held(names@, times@) == newest_first(list@.take(i as int), repo@),
        decreases list.len() - i,
    {
        let ghost before = held(names@, times@);
        proof {
            assert(list@.take(i + 1).drop_last() == list@.take(i as int));
            assert(list@.take(i + 1).last() == list@[i as int]);
            law_newest_come_first(list@.take(i as int), repo@);
        }
        if let (Some(name), Some(modified)) = (&list[i].name, list[i].modified) {
            if names_patch(name.as_str(), repo) {
                let ghost p = Patch { name: name@, modified: modified as int };
                let mut at: usize = 0;
                while at < times.len() && times[at] >= modified
                    invariant
                        at <= times.len(),
                        names.len() == times.len(),
                        before == held(names@, times@),
                        p.modified == modified,
                        forall|k: int| 0 <= k < at ==> (#[trigger] before[k]).modified >= p.modified,
                    decreases times.len() - at,
                {
                    proof {
                        assert(before[at as int].modified == times@[at as int]);
                    }
                    at += 1;
                }
                proof {
                    if at < before.len() {
                        assert(before[at as int].modified == times@[at as int]);
                    }
                    lemma_placed_at(before, p, at as int);
                }
                names.insert(at, name.clone());
                times.insert(at, modified);
                proof {
                    assert(held(names@, times@) == before.insert(at as int, p));
                }
            }
        }
        i += 1;
    }
    proof {
        assert(list@.take(list@.len() as int) == list@);
    }
    let ghost all = newest_first(list@, repo@);
    let mut r: Vec<String> = Vec::new();
    let mut k: usize = keep;
    while k < names.len()
        invariant
            keep <= k,
            all == held(names@, times@),
            keep <= names.len() ==> k <= names.len(),
            keep <= names.len() ==> texts(r@) == patch_names(all).subrange(keep as int, k as int),
            keep > names.len() ==> r.len() == 0 && k == keep,
        decreases names.len() - k,
    {
        let ghost was = r@;
        r.push(names[k].clone());
        k += 1;
        proof {
            assert(texts(r@) == texts(was).push(names@[k - 1]@));
            assert(patch_names(all)[k - 1] == names@[k - 1]@);
        }
    }
    proof {
        if keep < all.len() {
            assert(texts(r@) == patch_names(all.skip(keep as int)));
        } else {
            assert(texts(r@) == Seq::<Seq<char>>::empty());
        }
    }
    r
}

/// A backup is named by its repository, a time and a word, with hyphens
/// between them, and a name put together so is one of that repository.
pub proof fn law_a_backup_is_named_by_time_and_word(
    repo: Seq<char>,
    day: Seq<char>,
    time: Seq<char>,
    word: Seq<char>,
    x: char,
    y: char,
)
    requires
        day.len() == 8 && time.len() == 6 && word.len() > 0,
        forall|i: int| 0 <= i < 8 ==> '0' <= #[trigger] day[i] <= '9',
        forall|i: int| 0 <= i < 6 ==> '0' <= #[trigger] time[i] <= '9',
        forall|i: int| 0 <= i < word.len() ==> 'a' <= #[trigger] word[i] <= 'z',
        '0' <= x <= '9',
        '0' <= y <= '9',
    ensures
        is_stamp(day.push('-') + time),
        is_haiku(word + seq!['-', x, y]),
        is_patch_name(
            repo + (seq!['-'] + ((day.push('-') + time) + (seq!['-'] + ((word + seq!['-', x, y])
                + ".patch"@)))),
            repo,
        ),
{
    let stamp = day.push('-') + time;
    let haiku = word + seq!['-', x, y];
    assert forall|i: int| 9 <= i < 15 implies is_digit(#[trigger] stamp[i]) by {
        assert(stamp[i] == time[i - 9]);
    }
    assert forall|i: int| 0 <= i < 8 implies is_digit(#[trigger] stamp[i]) by {
        assert(stamp[i] == day[i]);
    }
    assert forall|i: int| 0 <= i < haiku.len() - 3 implies is_lower(#[trigger] haiku[i]) by {
        assert(haiku[i] == word[i]);
    }
    reveal_strlit("-");
    assert(patch_name(repo, stamp, haiku) == repo + (seq!['-'] + (stamp + (seq!['-'] + (haiku
        + ".patch"@)))));
}

/// A name is one of a repository only if it starts with the repository's name
/// and a hyphen, and has the ending of patches.
pub proof fn law_a_backup_carries_the_name_of_its_repository(name: Seq<char>, repo: Seq<char>)
    requires
        is_patch_name(name, repo),
    ensures
        name.len() >= repo.len() + 27,
        name.take(repo.len() as int) == repo,
        name[repo.len() as int] == '-',
        ".patch"@.is_suffix_of(name),
{
    reveal_strlit("-");
    reveal_strlit(".patch");
    let (stamp, haiku): (Seq<char>, Seq<char>) = choose|s: Seq<char>, h: Seq<char>|
        is_stamp(s) && is_haiku(h) && #[trigger] patch_name(repo, s, h) == name;
    assert(name == patch_name(repo, stamp, haiku));
    assert(name.take(repo.len() as int) == repo);
    assert(name.subrange(name.len() - 6, name.len() as int) == ".patch"@);
}

/// One more entry is put in its place: behind every backup that is at least as
/// new, and before every older one. What is no backup of the repository, or has
/// no time, is left out.
pub proof fn law_one_more_backup_is_put_in_its_place(
    list: Seq<PatchEntry>,
    e: PatchEntry,
    repo: Seq<char>,
)
    ensures
        newest_first(Seq::empty(), repo) == Seq::<Patch>::empty(),
        ({
            let before = newest_first(list, repo);
            let after = newest_first(list.push(e), repo);
            let counts = e.name is Some && e.modified is Some && is_patch_name(e.name->0@, repo);
            &&& !counts ==> after == before
            &&& counts ==> exists|at: int|
                {
                    &&& 0 <= at <= before.len()
                    &&& after == #[trigger] before.insert(
                        at,
                        Patch { name: e.name->0@, modified: e.modified->0 as int },
                    )
                    &&& forall|i: int|
                        0 <= i < at ==> (#[trigger] before[i]).modified >= e.modified->0
                    &&& forall|i: int|
                        at <= i < before.len() ==> (#[trigger] before[i]).modified < e.modified->0
                }
        }),
{
    let before = newest_first(list, repo);
    assert(list.push(e).drop_last() == list);
    law_newest_come_first(list, repo);
    if e.name is Some && e.modified is Some && is_patch_name(e.name->0@, repo) {
        let p = Patch { name: e.name->0@, modified: e.modified->0 as int };
        let at = lemma_place(before, p, 0);
        lemma_placed_at(before, p, at);
        assert forall|i: int| at <= i < before.len() implies (#[trigger] before[i]).modified
            < p.modified by {
            if i > at {
                assert(before[at].modified >= before[i].modified);
            }
        }
        assert(newest_first(list.push(e), repo) == before.insert(at, p));
    }
}

proof fn lemma_place(list: Seq<Patch>, p: Patch, from: int) -> (at: int)
    requires
        0 <= from <= list.len(),
        forall|i: int| 0 <= i < from ==> (#[trigger] list[i]).modified >= p.modified,
    ensures
        from <= at <= list.len(),
        forall|i: int| 0 <= i < at ==> (#[trigger] list[i]).modified >= p.modified,
        at < list.len() ==> list[at].modified < p.modified,
    decreases list.len() - from,
{
    if from < list.len() && list[from].modified >= p.modified {
        lemma_place(list, p, from + 1)
    } else {
        from
    }
}

/// Letters, digits, hyphens, dots and underscores stand for themselves in the
/// name of a repository; any other byte is written in hexadecimal.
pub proof fn law_bytes_are_escaped_one_by_one(a: Seq<u8>, b: Seq<u8>, c: u8)
    ensures
        escaped(a + b) == escaped(a) + escaped(b),
        (48 <= c <= 57 || 65 <= c <= 90 || 97 <= c <= 122 || c == 45 || c == 46 || c == 95)
            ==> escaped(seq![c]) == seq![c as char],
        !(48 <= c <= 57 || 65 <= c <= 90 || 97 <= c <= 122 || c == 45 || c == 46 || c == 95)
            ==> escaped(seq![c]) == seq!['%', hex(c as int / 16), hex(c as int % 16)],
        forall|n: int| 0 <= n < 10 ==> #[trigger] hex(n) as int == 48 + n,
        forall|n: int| 10 <= n < 16 ==> #[trigger] hex(n) as int == 55 + n,
    decreases a.len(),
{
    reveal_with_fuel(escaped, 2);
    assert(seq![c].drop_first() == Seq::<u8>::empty());
    assert(escaped_byte(c) + Seq::<char>::empty() == escaped_byte(c));
    if a.len() == 0 {
        assert(a + b == b);
        assert(escaped(a) + escaped(b) == escaped(b));
    } else {
        assert((a + b).drop_first() == a.drop_first() + b);
        assert((a + b)[0] == a[0]);
        law_bytes_are_escaped_one_by_one(a.drop_first(), b, c);
        assert(escaped_byte(a[0]) + (escaped(a.drop_first()) + escaped(b)) == (escaped_byte(a[0])
            + escaped(a.drop_first())) + escaped(b));
    }
}

/// The name of a repository has each component of its directory behind a plus
/// sign: a name escaped, `.` and `..` as they are, and nothing for the root.
pub proof fn law_a_repository_is_named_by_its_directory(
    parts: Seq<Seq<u8>>,
    name: Seq<u8>,
    dir: Seq<u8>,
)
    ensures
        components_text(Seq::empty()) == Seq::<char>::empty(),
        components_text(parts.push(seq![ROOT_RANK])) == components_text(parts) + seq!['+'],
        components_text(parts.push(seq![HERE_RANK])) == components_text(parts) + seq!['+', '.'],
        components_text(parts.push(seq![UP_RANK])) == components_text(parts) + seq!['+', '.', '.'],
        components_text(parts.push(seq![NAME_RANK] + name)) == components_text(parts) + seq!['+']
            + escaped(name),
        repo_name_of(dir) == components_text(components(dir)),
{
    assert(parts.push(seq![ROOT_RANK]).drop_last() == parts);
    assert(parts.push(seq![HERE_RANK]).drop_last() == parts);
    assert(parts.push(seq![UP_RANK]).drop_last() == parts);
    let c = seq![NAME_RANK] + name;
    assert(parts.push(c).drop_last() == parts);
    assert(c.skip(1) == name);
    let start = components_text(parts);
    assert(start.push('+') + Seq::<char>::empty() == start + seq!['+']);
    assert(start.push('+') + seq!['.'] == start + seq!['+', '.']);
    assert(start.push('+') + seq!['.', '.'] == start + seq!['+', '.', '.']);
    assert(start.push('+') == start + seq!['+']);
}

/// Whether an entry is a backup of the repository with a time.
pub open spec fn is_backup(e: PatchEntry, repo: Seq<char>) -> bool {
    e.name is Some && e.modified is Some && is_patch_name(e.name->0@, repo)
}

/// Every backup but the newest ones is removed: as many are as there are
/// backups beyond the number to keep, and none is newer than one that stays.
pub proof fn law_every_backup_counts(list: Seq<PatchEntry>, repo: Seq<char>, keep: nat)
    ensures
        ({
            let backups = list.filter(|e: PatchEntry| is_backup(e, repo)).len();
            outdated(list, repo, keep).len() == (if backups > keep {
                backups - keep
            } else {
                0
            })
        }),
{
    lemma_count(list, repo);
}

proof fn lemma_count(list: Seq<PatchEntry>, repo: Seq<char>)
    ensures
        newest_first(list, repo).len() == list.filter(|e: PatchEntry| is_backup(e, repo)).len(),
    decreases list.len(),
{
    reveal(Seq::filter);
    if list.len() > 0 {
        let rest = list.drop_last();
        lemma_count(rest, repo);
        law_one_more_backup_is_put_in_its_place(rest, list.last(), repo);
        assert(rest.push(list.last()) == list);
    }
}

/// What time stamps and words of backups are, character by character.
pub proof fn law_stamps_and_words_have_one_form(s: Seq<char>)
    ensures
        is_stamp(s) <==> {
            let n = s.len();
            &&& n >= 15 && s[n - 7] == '-'
            &&& forall|i: int|
                0 <= i < n && i != n - 7 && !(i == 0 && n > 15) ==> '0' <= #[trigger] s[i] <= '9'
            &&& n > 15 ==> s[0] == '+'
        },
        is_haiku(s) <==> {
            let n = s.len();
            &&& n >= 4 && s[n - 3] == '-'
            &&& '0' <= s[n - 2] <= '9' && '0' <= s[n - 1] <= '9'
            &&& forall|i: int| 0 <= i < n - 3 ==> 'a' <= #[trigger] s[i] <= 'z'
        },
{
    let n = s.len();
    if is_stamp(s) {
        assert forall|i: int|
            0 <= i < n && i != n - 7 && !(i == 0 && n > 15) implies '0' <= #[trigger] s[i]
            <= '9' by {
            assert(is_digit(s[i]));
        }
    }
    if is_haiku(s) {
        assert forall|i: int| 0 <= i < n - 3 implies 'a' <= #[trigger] s[i] <= 'z' by {
            assert(is_lower(s[i]));
        }
    }
}

} // verus!
