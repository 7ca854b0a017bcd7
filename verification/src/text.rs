//! Text as git hands it out: records, lines, words, and the small string
//! operations that reading them takes.
use vstd::prelude::*;

verus! {

/// Appends one character, as `String::push` does.
pub assume_specification[ String::push ](s: &mut String, c: char)
    ensures
        final(s)@ == old(s)@.push(c),
;

/// The characters of the Unicode `White_Space` property.
pub open spec fn is_whitespace(c: char) -> bool {
    ||| '\u{9}' <= c <= '\u{d}'
    ||| c == ' '
    ||| c == '\u{85}'
    ||| c == '\u{a0}'
    ||| c == '\u{1680}'
    ||| '\u{2000}' <= c <= '\u{200a}'
    ||| c == '\u{2028}'
    ||| c == '\u{2029}'
    ||| c == '\u{202f}'
    ||| c == '\u{205f}'
    ||| c == '\u{3000}'
}

/// Tells whether `c` is white space.
pub fn whitespace(c: char) -> (r: bool)
    ensures
        r == is_whitespace(c),
{
    ('\u{9}' <= c && c <= '\u{d}') || c == ' ' || c == '\u{85}' || c == '\u{a0}' || c == '\u{1680}'
        || ('\u{2000}' <= c && c <= '\u{200a}') || c == '\u{2028}' || c == '\u{2029}' || c
        == '\u{202f}' || c == '\u{205f}' || c == '\u{3000}'
}

/// What ends a piece of a text.
#[derive(Clone, Copy)]
pub enum Separator {
    /// One given character.
    Char(char),
    /// Any white space.
    Whitespace,
    /// Either of the two slashes that part the components of a program's path.
    Slash,
}

impl Separator {
    /// Whether `c` is a separator.
    pub open spec fn matches(self, c: char) -> bool {
        match self {
            Separator::Char(d) => c == d,
            Separator::Whitespace => is_whitespace(c),
            Separator::Slash => c == '/' || c == '\\',
        }
    }

    /// Tells whether `c` is a separator.
    pub fn separates(self, c: char) -> (r: bool)
        ensures
            r == self.matches(c),
    {
        match self {
            Separator::Char(d) => c == d,
            Separator::Whitespace => whitespace(c),
            Separator::Slash => c == '/' || c == '\\',
        }
    }
}

/// The texts of a list of strings.
pub open spec fn texts(list: Seq<String>) -> Seq<Seq<char>> {
    Seq::new(list.len(), |i: int| list[i]@)
}

/// The text of a string that may be missing.
pub open spec fn opt_text(s: Option<String>) -> Option<Seq<char>> {
    match s {
        Some(t) => Some(t@),
        None => None,
    }
}

/// The pieces of `s` between separators; a text without any is one piece.
pub open spec fn split_by(s: Seq<char>, sep: Separator) -> Seq<Seq<char>>
    decreases s.len(),
{
    if s.len() == 0 {
        seq![s]
    } else {
        let before = split_by(s.drop_last(), sep);
        if sep.matches(s.last()) {
            before.push(Seq::empty())
        } else {
            before.drop_last().push(before.last().push(s.last()))
        }
    }
}

/// The pieces that are not empty, in order.
pub open spec fn nonempty(pieces: Seq<Seq<char>>) -> Seq<Seq<char>>
    decreases pieces.len(),
{
    if pieces.len() == 0 {
        pieces
    } else {
        let before = nonempty(pieces.drop_last());
        if pieces.last().len() == 0 {
            before
        } else {
            before.push(pieces.last())
        }
    }
}

/// The NUL-terminated records of git's `-z` output.
pub open spec fn records(s: Seq<char>) -> Seq<Seq<char>> {
    nonempty(split_by(s, Separator::Char('\0')))
}

/// The words of `s`: its longest runs without white space.
pub open spec fn words(s: Seq<char>) -> Seq<Seq<char>> {
    nonempty(split_by(s, Separator::Whitespace))
}

/// A line without the carriage return that may end it.
pub open spec fn without_return(s: Seq<char>) -> Seq<char> {
    if s.len() > 0 && s.last() == '\r' {
        s.drop_last()
    } else {
        s
    }
}

/// The lines of `s`. A line ends with a newline, with or without a carriage
/// return before it; the newline after the last line may be missing.
pub open spec fn lines(s: Seq<char>) -> Seq<Seq<char>> {
    let pieces = split_by(s, Separator::Char('\n'));
    let ended = Seq::new((pieces.len() - 1) as nat, |i: int| without_return(pieces[i]));
    if pieces.last().len() == 0 {
        ended
    } else {
        ended.push(pieces.last())
    }
}

/// `s` without the white space at either end.
pub open spec fn trimmed(s: Seq<char>) -> Seq<char>
    decreases s.len(),
{
    if s.len() > 0 && is_whitespace(s.first()) {
        trimmed(s.drop_first())
    } else if s.len() > 0 && is_whitespace(s.last()) {
        trimmed(s.drop_last())
    } else {
        s
    }
}

/// Whether `s` holds nothing but white space.
pub open spec fn is_blank(s: Seq<char>) -> bool {
    forall|i: int| 0 <= i < s.len() ==> is_whitespace(#[trigger] s[i])
}

/// What follows `prefix` in `s`, if `s` starts with it.
pub open spec fn after_prefix(s: Seq<char>, prefix: Seq<char>) -> Option<Seq<char>> {
    if prefix.is_prefix_of(s) {
        Some(s.skip(prefix.len() as int))
    } else {
        None
    }
}

/// Whether `part` stands in `s` at `at`.
pub open spec fn stands_at(s: Seq<char>, part: Seq<char>, at: int) -> bool {
    0 <= at <= s.len() - part.len() && s.subrange(at, at + part.len()) == part
}

/// Whether `part` stands anywhere in `s`.
pub open spec fn has_part(s: Seq<char>, part: Seq<char>) -> bool {
    exists|at: int| #[trigger] stands_at(s, part, at)
}

/// The place of the first `c` in `s`, or the length of `s`.
pub open spec fn first_place(s: Seq<char>, c: char) -> int
    decreases s.len(),
{
    if s.len() == 0 || s[0] == c {
        0
    } else {
        1 + first_place(s.drop_first(), c)
    }
}

/// The parts of `s` before and after its first `c`.
pub open spec fn parted(s: Seq<char>, c: char) -> Option<(Seq<char>, Seq<char>)> {
    let at = first_place(s, c);
    if at < s.len() {
        Some((s.take(at), s.skip(at + 1)))
    } else {
        None
    }
}

/// There is always at least one piece.
pub proof fn lemma_split_some(s: Seq<char>, sep: Separator)
    ensures
        split_by(s, sep).len() > 0,
    decreases s.len(),
{
    if s.len() > 0 {
        lemma_split_some(s.drop_last(), sep);
    }
}

/// The pieces of a split, put one after another with `sep` between them.
pub open spec fn joined(pieces: Seq<Seq<char>>, sep: char) -> Seq<char>
    decreases pieces.len(),
{
    if pieces.len() == 0 {
        Seq::empty()
    } else if pieces.len() == 1 {
        pieces[0]
    } else {
        joined(pieces.drop_last(), sep).push(sep) + pieces.last()
    }
}

/// Joining the pieces of a text gives the text back.
pub proof fn law_split_loses_nothing(s: Seq<char>, sep: char)
    ensures
        joined(split_by(s, Separator::Char(sep)), sep) == s,
    decreases s.len(),
{
    let d = Separator::Char(sep);
    lemma_split_some(s, d);
    if s.len() > 0 {
        let t = s.drop_last();
        let before = split_by(t, d);
        law_split_loses_nothing(t, sep);
        lemma_split_some(t, d);
        let all = split_by(s, d);
        assert(s == t.push(s.last()));
        if s.last() == sep {
            assert(all.drop_last() == before);
            assert(joined(all, sep) == t.push(sep) + Seq::<char>::empty());
        } else {
            assert(all.drop_last() == before.drop_last());
            assert(all.last() == before.last().push(s.last()));
            if all.len() == 1 {
                assert(all[0] == before[0].push(s.last()));
            } else {
                assert(joined(all, sep) == joined(before.drop_last(), sep).push(sep)
                    + before.last().push(s.last()));
                assert(joined(before, sep) == joined(before.drop_last(), sep).push(sep)
                    + before.last());
            }
        }
    } else {
        assert(split_by(s, d)[0] == s);
    }
}

/// No piece of a split holds a separator.
pub proof fn law_pieces_hold_no_separator(s: Seq<char>, sep: Separator, i: int, j: int)
    requires
        0 <= i < split_by(s, sep).len(),
        0 <= j < split_by(s, sep)[i].len(),
    ensures
        !sep.matches(split_by(s, sep)[i][j]),
    decreases s.len(),
{
    if s.len() > 0 {
        let before = split_by(s.drop_last(), sep);
        lemma_split_some(s.drop_last(), sep);
        if sep.matches(s.last()) {
            law_pieces_hold_no_separator(s.drop_last(), sep, i, j);
        } else if i < before.len() - 1 || j < before.last().len() {
            law_pieces_hold_no_separator(s.drop_last(), sep, i, j);
        }
    }
}

/// A text trims to nothing exactly when it is blank.
pub proof fn law_blank_trims_to_nothing(s: Seq<char>)
    ensures
        trimmed(s).len() == 0 <==> is_blank(s),
    decreases s.len(),
{
    if s.len() > 0 && is_whitespace(s.first()) {
        law_blank_trims_to_nothing(s.drop_first());
        let rest = s.drop_first();
        assert(forall|i: int| 0 <= i < rest.len() ==> #[trigger] rest[i] == s[i + 1]);
        if is_blank(rest) {
            assert forall|i: int| 0 <= i < s.len() implies is_whitespace(#[trigger] s[i]) by {
                if i > 0 {
                    assert(is_whitespace(rest[i - 1]));
                }
            }
        }
    } else if s.len() > 0 && is_whitespace(s.last()) {
        law_blank_trims_to_nothing(s.drop_last());
        assert(!is_whitespace(s[0]));
        if s.len() > 1 {
            assert(!is_whitespace(s.drop_last()[0]));
        }
    } else if s.len() > 0 {
        assert(!is_whitespace(s[0]));
    }
}

/// Copies a text into a list of its characters.
pub fn to_chars(s: &str) -> (r: Vec<char>)
    ensures
        r@ == s@,
{
    let mut out: Vec<char> = Vec::new();
    for c in it: s.chars()
        invariant
            out@ == it.seq().take(it.index() as int),
            it.seq() == s@,
    {
        out.push(c);
    }
    out
}

/// The characters of `chars` from `from` to `to`, as a string.
pub fn text_of(chars: &Vec<char>, from: usize, to: usize) -> (r: String)
    requires
        from <= to <= chars.len(),
    ensures
        r@ == chars@.subrange(from as int, to as int),
{
    let mut out = String::new();
    let mut i: usize = from;
    while i < to
        invariant
            from <= i <= to <= chars.len(),
            out@ == chars@.subrange(from as int, i as int),
        decreases to - i,
    {
        out.push(chars[i]);
        i += 1;
        proof {
            assert(chars@.subrange(from as int, i as int) == chars@.subrange(
                from as int,
                i - 1,
            ).push(chars@[i - 1]));
        }
    }
    out
}

/// Tells whether two texts are the same.
pub fn same(a: &str, b: &str) -> (r: bool)
    ensures
        r == (a@ == b@),
{
    let x = a.to_owned();
    let y = b.to_owned();
    x == y
}

/// Splits a text at every separator.
pub fn split(s: &str, sep: Separator) -> (r: Vec<String>)
    ensures
        texts(r@) == split_by(s@, sep),
{
    let mut done: Vec<String> = Vec::new();
    let mut current = String::new();
    proof {
        assert(texts(done@).push(current@) == seq![Seq::<char>::empty()]);
        assert(s@.take(0) == Seq::<char>::empty());
    }
    for c in it: s.chars()
        invariant
            it.seq() == s@,
            texts(done@).push(current@) == split_by(s@.take(it.index() as int), sep),
    {
        let ghost before = texts(done@).push(current@);
        let ghost upto = s@.take(it.index() + 1);
        proof {
            assert(upto.drop_last() == s@.take(it.index() as int));
            assert(upto.last() == c);
            assert(before.drop_last() == texts(done@));
        }
        if sep.separates(c) {
            let ghost was = done@;
            let ghost piece = current@;
            done.push(current);
            current = String::new();
            proof {
                assert(texts(done@) == texts(was).push(piece));
            }
        } else {
            current.push(c);
        }
    }
    let ghost was = done@;
    let ghost piece = current@;
    done.push(current);
    proof {
        assert(texts(done@) == texts(was).push(piece));
        assert(s@.take(s@.len() as int) == s@);
    }
    done
}

/// Drops the pieces that are empty.
pub fn keep_nonempty(pieces: &Vec<String>) -> (r: Vec<String>)
    ensures
        texts(r@) == nonempty(texts(pieces@)),
{
    let mut out: Vec<String> = Vec::new();
    let ghost all = texts(pieces@);
    proof {
        assert(texts(out@) == nonempty(all.take(0)));
    }
    let mut i: usize = 0;
    while i < pieces.len()
        invariant
            i <= pieces.len(),
            all == texts(pieces@),
            texts(out@) == nonempty(all.take(i as int)),
        decreases pieces.len() - i,
    {
        let ghost was = out@;
        proof {
            assert(all.take(i + 1).drop_last() == all.take(i as int));
            assert(all.take(i + 1).last() == pieces@[i as int]@);
        }
        if !pieces[i].as_str().is_empty() {
            out.push(pieces[i].clone());
            proof {
                assert(texts(out@) == texts(was).push(pieces@[i as int]@));
            }
        }
        i += 1;
    }
    proof {
        assert(all.take(all.len() as int) == all);
    }
    out
}

/// Reads the records of git's `-z` output.
pub fn split_records(s: &str) -> (r: Vec<String>)
    ensures
        texts(r@) == records(s@),
{
    keep_nonempty(&split(s, Separator::Char('\0')))
}

/// Reads the words of a text.
pub fn split_words(s: &str) -> (r: Vec<String>)
    ensures
        texts(r@) == words(s@),
{
    keep_nonempty(&split(s, Separator::Whitespace))
}

/// Drops the carriage return at the end of a line.
fn drop_return(s: &String) -> (r: String)
    ensures
        r@ == without_return(s@),
{
    let chars = to_chars(s.as_str());
    let n: usize = chars.len();
    if n > 0 && chars[n - 1] == '\r' {
        let r = text_of(&chars, 0, n - 1);
        proof {
            assert(r@ == s@.drop_last());
        }
        r
    } else {
        s.clone()
    }
}

/// Reads the lines of a text.
pub fn split_lines(s: &str) -> (r: Vec<String>)
    ensures
        texts(r@) == lines(s@),
{
    let pieces = split(s, Separator::Char('\n'));
    let ghost all = split_by(s@, Separator::Char('\n'));
    proof {
        lemma_split_some(s@, Separator::Char('\n'));
    }
    let n: usize = pieces.len();
    let mut out: Vec<String> = Vec::new();
    let mut i: usize = 0;
    while i + 1 < n
        invariant
            n == pieces.len(),
            all == texts(pieces@),
            0 < n,
            i <= n - 1,
            texts(out@) == Seq::new(i as nat, |k: int| without_return(all[k])),
        decreases n - i,
    {
        let ghost was = out@;
        let line = drop_return(&pieces[i]);
        let ghost text = line@;
        out.push(line);
        proof {
            assert(texts(out@) == texts(was).push(text));
        }
        i += 1;
    }
    let ghost was = out@;
    proof {
        assert(all.last() == pieces@[n - 1]@);
    }
    if !pieces[n - 1].as_str().is_empty() {
        out.push(pieces[n - 1].clone());
        proof {
            assert(texts(out@) == texts(was).push(pieces@[n - 1]@));
        }
    }
    out
}

/// Trims the white space at either end.
pub fn trim(s: &str) -> (r: String)
    ensures
        r@ == trimmed(s@),
{
    let chars = to_chars(s);
    let mut from: usize = 0;
    let mut to: usize = chars.len();
    proof {
        assert(chars@.subrange(0, to as int) == s@);
    }
    while from < to && whitespace(chars[from])
        invariant
            from <= to == chars.len(),
            trimmed(chars@.subrange(from as int, to as int)) == trimmed(s@),
        decreases to - from,
    {
        proof {
            let part = chars@.subrange(from as int, to as int);
            assert(part.drop_first() == chars@.subrange(from + 1, to as int));
        }
        from += 1;
    }
    while from < to && whitespace(chars[to - 1])
        invariant
            from <= to <= chars.len(),
            from < to ==> !is_whitespace(chars@[from as int]),
            trimmed(chars@.subrange(from as int, to as int)) == trimmed(s@),
        decreases to - from,
    {
        proof {
            let part = chars@.subrange(from as int, to as int);
            assert(part.drop_last() == chars@.subrange(from as int, to - 1));
        }
        to -= 1;
    }
    text_of(&chars, from, to)
}

/// Tells whether a text holds nothing but white space.
pub fn blank(s: &str) -> (r: bool)
    ensures
        r == is_blank(s@),
{
    let chars = to_chars(s);
    let mut i: usize = 0;
    while i < chars.len()
        invariant
            chars@ == s@,
            i <= chars.len(),
            forall|k: int| 0 <= k < i ==> is_whitespace(#[trigger] s@[k]),
        decreases chars.len() - i,
    {
        if !whitespace(chars[i]) {
            proof {
                assert(!is_whitespace(s@[i as int]));
            }
            return false;
        }
        i += 1;
    }
    true
}

/// Tells whether `part` stands in `s` at `at`.
fn found_at(s: &Vec<char>, part: &Vec<char>, at: usize) -> (r: bool)
    requires
        at + part.len() <= s.len(),
    ensures
        r == stands_at(s@, part@, at as int),
{
    let mut i: usize = 0;
    let ghost window = s@.subrange(at as int, at + part@.len());
    while i < part.len()
        invariant
            at + part.len() <= s.len(),
            i <= part.len(),
            window == s@.subrange(at as int, at + part@.len()),
            forall|k: int| 0 <= k < i ==> window[k] == part@[k],
        decreases part.len() - i,
    {
        if s[at + i] != part[i] {
            proof {
                assert(window[i as int] != part@[i as int]);
            }
            return false;
        }
        proof {
            assert(window[i as int] == part@[i as int]);
        }
        i += 1;
    }
    proof {
        assert(window == part@);
    }
    true
}

/// Takes a prefix off a text that starts with it.
pub fn strip_prefix(s: &str, prefix: &str) -> (r: Option<String>)
    ensures
        opt_text(r) == after_prefix(s@, prefix@),
{
    let chars = to_chars(s);
    let head = to_chars(prefix);
    if head.len() <= chars.len() && found_at(&chars, &head, 0) {
        let rest = text_of(&chars, head.len(), chars.len());
        proof {
            assert(prefix@.is_prefix_of(s@));
            assert(rest@ == s@.skip(prefix@.len() as int));
        }
        Some(rest)
    } else {
        proof {
            if prefix@.is_prefix_of(s@) {
                assert(s@.subrange(0, prefix@.len() as int) == prefix@);
                assert(stands_at(chars@, head@, 0));
            }
        }
        None
    }
}

/// Tells whether a text starts with `prefix`.
pub fn starts_with(s: &str, prefix: &str) -> (r: bool)
    ensures
        r == prefix@.is_prefix_of(s@),
{
    strip_prefix(s, prefix).is_some()
}

/// Tells whether a text ends with `suffix`.
pub fn ends_with(s: &str, suffix: &str) -> (r: bool)
    ensures
        r == suffix@.is_suffix_of(s@),
{
    let chars = to_chars(s);
    let tail = to_chars(suffix);
    if tail.len() <= chars.len() {
        let at: usize = chars.len() - tail.len();
        let r = found_at(&chars, &tail, at);
        proof {
            let window = s@.subrange(at as int, at + suffix@.len());
            if suffix@.is_suffix_of(s@) {
                assert(window == suffix@);
            }
            if r {
                assert(window == suffix@);
                assert(s@.subrange(s@.len() - suffix@.len(), s@.len() as int) == suffix@);
            }
        }
        r
    } else {
        false
    }
}

/// Tells whether `part` stands anywhere in a text.
pub fn contains(s: &str, part: &str) -> (r: bool)
    ensures
        r == has_part(s@, part@),
{
    let chars = to_chars(s);
    let wanted = to_chars(part);
    if wanted.len() > chars.len() {
        return false;
    }
    let mut at: usize = 0;
    while at <= chars.len() - wanted.len()
        invariant
            chars@ == s@,
            wanted@ == part@,
            wanted.len() <= chars.len(),
            at <= chars.len() - wanted.len() + 1,
            forall|k: int| 0 <= k < at ==> !(#[trigger] stands_at(s@, part@, k)),
        decreases chars.len() - wanted.len() + 1 - at,
    {
        if found_at(&chars, &wanted, at) {
            return true;
        }
        if at == chars.len() - wanted.len() {
            return false;
        }
        at += 1;
    }
    false
}

/// The first place, as a scan from `from` finds it.
proof fn lemma_first_place(s: Seq<char>, c: char, from: int)
    requires
        0 <= from <= s.len(),
        forall|k: int| 0 <= k < from ==> s[k] != c,
        from == s.len() || s[from] == c,
    ensures
        first_place(s, c) == from,
    decreases s.len(),
{
    if s.len() > 0 && s[0] != c {
        lemma_first_place(s.drop_first(), c, from - 1);
    }
}

/// Parts a text at its first `c`.
pub fn split_once(s: &str, c: char) -> (r: Option<(String, String)>)
    ensures
        match r {
            Some((left, right)) => parted(s@, c) == Some((left@, right@)),
            None => parted(s@, c) is None,
        },
{
    let chars = to_chars(s);
    let mut i: usize = 0;
    while i < chars.len() && chars[i] != c
        invariant
            i <= chars.len(),
            forall|k: int| 0 <= k < i ==> chars@[k] != c,
        decreases chars.len() - i,
    {
        i += 1;
    }
    proof {
        lemma_first_place(s@, c, i as int);
    }
    if i < chars.len() {
        let left = text_of(&chars, 0, i);
        let right = text_of(&chars, i + 1, chars.len());
        proof {
            assert(left@ == s@.take(i as int));
            assert(right@ == s@.skip(i + 1));
        }
        Some((left, right))
    } else {
        None
    }
}

/// The last piece of a split.
pub fn last_piece(s: &str, sep: Separator) -> (r: String)
    ensures
        r@ == split_by(s@, sep).last(),
{
    let pieces = split(s, sep);
    proof {
        lemma_split_some(s@, sep);
        assert(texts(pieces@).last() == pieces@.last()@);
    }
    pieces[pieces.len() - 1].clone()
}

/// Two texts, one after the other.
pub fn concat2(a: &str, b: &str) -> (r: String)
    ensures
        r@ == a@ + b@,
{
    let mut r = a.to_owned();
    r.append(b);
    r
}

/// Three texts, one after the other.
pub fn concat3(a: &str, b: &str, c: &str) -> (r: String)
    ensures
        r@ == a@ + b@ + c@,
{
    let mut r = concat2(a, b);
    r.append(c);
    r
}

/// A copy of a list of texts.
pub fn copy_texts(from: &Vec<String>) -> (r: Vec<String>)
    ensures
        texts(r@) == texts(from@),
{
    let mut r: Vec<String> = Vec::new();
    let mut i: usize = 0;
    while i < from.len()
        invariant
            i <= from.len(),
            r.len() == i,
            forall|k: int| 0 <= k < i ==> (#[trigger] r@[k])@ == from@[k]@,
        decreases from.len() - i,
    {
        r.push(from[i].clone());
        i += 1;
    }
    r
}

/// What counts as white space, by code point.
pub proof fn law_white_space(c: char)
    ensures
        is_whitespace(c) <==> {
            let n = c as u32;
            ||| 0x9 <= n <= 0xd
            ||| n == 0x20 || n == 0x85 || n == 0xa0 || n == 0x1680
            ||| 0x2000 <= n <= 0x200a
            ||| n == 0x2028 || n == 0x2029 || n == 0x202f || n == 0x205f || n == 0x3000
        },
{
}

/// What the kinds of separators are.
pub proof fn law_separators(c: char, d: char)
    ensures
        Separator::Char(d).matches(c) <==> c == d,
        Separator::Whitespace.matches(c) <==> is_whitespace(c),
        Separator::Slash.matches(c) <==> c as u32 == 0x2f || c as u32 == 0x5c,
{
}

/// A text without separators is one piece.
pub proof fn law_a_text_without_separators_is_one_piece(s: Seq<char>, sep: Separator)
    requires
        forall|i: int| 0 <= i < s.len() ==> !sep.matches(#[trigger] s[i]),
    ensures
        split_by(s, sep) == seq![s],
    decreases s.len(),
{
    if s.len() > 0 {
        let t = s.drop_last();
        assert forall|i: int| 0 <= i < t.len() implies !sep.matches(#[trigger] t[i]) by {
            assert(t[i] == s[i]);
        }
        law_a_text_without_separators_is_one_piece(t, sep);
        assert(!sep.matches(s[s.len() - 1]));
        assert(t.push(s.last()) == s);
    }
}

/// A separator parts the pieces before it from those after it.
pub proof fn law_a_separator_parts_a_text(a: Seq<char>, c: char, b: Seq<char>, sep: Separator)
    requires
        sep.matches(c),
    ensures
        split_by(a.push(c) + b, sep) == split_by(a, sep) + split_by(b, sep),
    decreases b.len(),
{
    let s = a.push(c) + b;
    if b.len() == 0 {
        assert(s == a.push(c));
        assert(s.drop_last() == a);
        assert(b == Seq::<char>::empty());
        assert(split_by(b, sep) == seq![b]);
    } else {
        let t = b.drop_last();
        assert(s.drop_last() == a.push(c) + t);
        assert(s.last() == b.last());
        law_a_separator_parts_a_text(a, c, t, sep);
        lemma_split_some(t, sep);
        let x = split_by(a, sep);
        let y = split_by(t, sep);
        assert((x + y).last() == y.last());
        assert((x + y).drop_last() == x + y.drop_last());
    }
}

/// The pieces that are kept are those that are not empty: all of them, once
/// each, in their order.
pub proof fn law_every_piece_that_is_not_empty_is_kept(pieces: Seq<Seq<char>>)
    ensures
        nonempty(pieces) == pieces.filter(|p: Seq<char>| p.len() > 0),
    decreases pieces.len(),
{
    reveal(Seq::filter);
    if pieces.len() > 0 {
        law_every_piece_that_is_not_empty_is_kept(pieces.drop_last());
    }
}

proof fn lemma_nonempty_joined(a: Seq<Seq<char>>, b: Seq<Seq<char>>)
    ensures
        nonempty(a + b) == nonempty(a) + nonempty(b),
    decreases b.len(),
{
    if b.len() == 0 {
        assert(a + b == a);
        assert(nonempty(a) + nonempty(b) == nonempty(a));
    } else {
        assert((a + b).drop_last() == a + b.drop_last());
        lemma_nonempty_joined(a, b.drop_last());
    }
}

/// Records end where a NUL stands, and a text without one is one record, or
/// none where it is empty.
pub proof fn law_a_nul_ends_a_record(a: Seq<char>, b: Seq<char>)
    ensures
        records(a.push('\0') + b) == records(a) + records(b),
        !a.contains('\0') ==> records(a) == (if a.len() == 0 {
            Seq::empty()
        } else {
            seq![a]
        }),
{
    let sep = Separator::Char('\0');
    law_a_separator_parts_a_text(a, '\0', b, sep);
    lemma_nonempty_joined(split_by(a, sep), split_by(b, sep));
    if !a.contains('\0') {
        assert forall|i: int| 0 <= i < a.len() implies !sep.matches(#[trigger] a[i]) by {}
        law_a_text_without_separators_is_one_piece(a, sep);
        reveal_with_fuel(nonempty, 2);
        assert(seq![a].drop_last() == Seq::<Seq<char>>::empty());
    }
}

/// Words end where white space stands, and a text without any is one word, or
/// none where it is empty.
pub proof fn law_white_space_ends_a_word(a: Seq<char>, c: char, b: Seq<char>)
    requires
        is_whitespace(c),
    ensures
        words(a.push(c) + b) == words(a) + words(b),
        (forall|i: int| 0 <= i < a.len() ==> !is_whitespace(#[trigger] a[i])) ==> words(a) == (
        if a.len() == 0 {
            Seq::empty()
        } else {
            seq![a]
        }),
{
    let sep = Separator::Whitespace;
    law_a_separator_parts_a_text(a, c, b, sep);
    lemma_nonempty_joined(split_by(a, sep), split_by(b, sep));
    if forall|i: int| 0 <= i < a.len() ==> !is_whitespace(#[trigger] a[i]) {
        assert forall|i: int| 0 <= i < a.len() implies !sep.matches(#[trigger] a[i]) by {}
        law_a_text_without_separators_is_one_piece(a, sep);
        reveal_with_fuel(nonempty, 2);
        assert(seq![a].drop_last() == Seq::<Seq<char>>::empty());
    }
}

/// A newline ends a line, and takes the carriage return before it along. What
/// follows the last newline is a line unless it is empty.
pub proof fn law_a_newline_ends_a_line(line: Seq<char>, rest: Seq<char>)
    requires
        !line.contains('\n'),
    ensures
        lines(line.push('\n') + rest) == seq![
            if line.len() > 0 && line.last() == '\r' {
                line.drop_last()
            } else {
                line
            },
        ] + lines(rest),
        lines(line) == (if line.len() == 0 {
            Seq::empty()
        } else {
            seq![line]
        }),
{
    let sep = Separator::Char('\n');
    assert forall|i: int| 0 <= i < line.len() implies !sep.matches(#[trigger] line[i]) by {}
    law_a_text_without_separators_is_one_piece(line, sep);
    law_a_separator_parts_a_text(line, '\n', rest, sep);
    lemma_split_some(rest, sep);
    let x = split_by(rest, sep);
    let all = seq![line] + x;
    assert(all.last() == x.last());
    let head = seq![without_return(line)];
    assert(lines(line.push('\n') + rest) == head + lines(rest));
}

/// Trimming takes away the white space at both ends, and nothing else.
pub proof fn law_trimming_keeps_what_is_between(a: Seq<char>, t: Seq<char>, b: Seq<char>)
    requires
        is_blank(a),
        is_blank(b),
        t.len() > 0 ==> !is_whitespace(t.first()) && !is_whitespace(t.last()),
    ensures
        trimmed(a + t + b) == t,
    decreases a.len() + b.len(),
{
    let s = a + t + b;
    if t.len() == 0 {
        assert forall|i: int| 0 <= i < s.len() implies is_whitespace(#[trigger] s[i]) by {
            if i < a.len() {
                assert(s[i] == a[i]);
            } else {
                assert(s[i] == b[i - a.len()]);
            }
        }
        law_blank_trims_to_nothing(s);
        assert(trimmed(s) == t);
    } else if a.len() > 0 {
        let rest = a.drop_first();
        assert(s.first() == a[0]);
        assert(s.drop_first() == rest + t + b);
        assert forall|i: int| 0 <= i < rest.len() implies is_whitespace(#[trigger] rest[i]) by {
            assert(rest[i] == a[i + 1]);
        }
        law_trimming_keeps_what_is_between(rest, t, b);
    } else if b.len() > 0 {
        let rest = b.drop_last();
        assert(s.first() == t.first());
        assert(s.last() == b[b.len() - 1]);
        assert(s.drop_last() == a + t + rest);
        assert forall|i: int| 0 <= i < rest.len() implies is_whitespace(#[trigger] rest[i]) by {
            assert(rest[i] == b[i]);
        }
        law_trimming_keeps_what_is_between(a, t, rest);
    } else {
        assert(s == t);
    }
}

/// A text is parted at the first of some character: what comes before holds
/// none. A text that holds none is not parted.
pub proof fn law_a_text_is_parted_at_the_first(a: Seq<char>, c: char, b: Seq<char>)
    requires
        !a.contains(c),
    ensures
        parted(a.push(c) + b, c) == Some((a, b)),
        parted(a, c) is None,
    decreases a.len(),
{
    let s = a.push(c) + b;
    lemma_first_between(a, c, b);
    assert(s.take(a.len() as int) == a);
    assert(s.skip(a.len() as int + 1) == b);
}

proof fn lemma_first_between(a: Seq<char>, c: char, b: Seq<char>)
    requires
        !a.contains(c),
    ensures
        first_place(a.push(c) + b, c) == a.len(),
        first_place(a, c) == a.len(),
    decreases a.len(),
{
    let s = a.push(c) + b;
    if a.len() > 0 {
        assert(a[0] != c);
        let rest = a.drop_first();
        assert(s.drop_first() == rest.push(c) + b);
        assert forall|i: int| 0 <= i < rest.len() implies rest[i] != c by {
            assert(rest[i] == a[i + 1]);
        }
        lemma_first_between(rest, c, b);
    }
}

/// What follows a prefix is what was put behind it, and only a text that was
/// put together so has the prefix.
pub proof fn law_a_prefix_comes_off(prefix: Seq<char>, rest: Seq<char>, s: Seq<char>)
    ensures
        after_prefix(prefix + rest, prefix) == Some(rest),
        after_prefix(s, prefix) matches Some(t) ==> s == prefix + t,
        after_prefix(s, prefix) is None ==> s.len() < prefix.len() || s.take(prefix.len() as int)
            != prefix,
{
    assert(prefix.is_prefix_of(prefix + rest));
    assert((prefix + rest).skip(prefix.len() as int) == rest);
    if after_prefix(s, prefix) is Some {
        assert(s == prefix + s.skip(prefix.len() as int));
    } else if s.len() >= prefix.len() && s.take(prefix.len() as int) == prefix {
        assert(prefix.is_prefix_of(s));
    }
}

/// A part stands in a text exactly if the text is put together around it.
pub proof fn law_a_part_stands_between_others(
    a: Seq<char>,
    part: Seq<char>,
    b: Seq<char>,
    s: Seq<char>,
)
    ensures
        has_part(a + part + b, part),
        has_part(s, part) ==> exists|x: Seq<char>, y: Seq<char>| s == #[trigger] (x + part + y),
{
    let t = a + part + b;
    assert(t.subrange(a.len() as int, a.len() as int + part.len()) == part);
    assert(stands_at(t, part, a.len() as int));
    if has_part(s, part) {
        let at = choose|at: int| #[trigger] stands_at(s, part, at);
        let x = s.take(at);
        let y = s.skip(at + part.len());
        assert(s.subrange(at, at + part.len()) == part);
        assert(s == x + part + y);
    }
}

/// A text has words exactly if it is not blank, and it is blank exactly if it
/// holds nothing but white space.
pub proof fn law_a_blank_text_has_no_words(s: Seq<char>)
    ensures
        words(s).len() == 0 <==> is_blank(s),
        is_blank(s) <==> !(exists|i: int| 0 <= i < s.len() && !is_whitespace(#[trigger] s[i])),
    decreases s.len(),
{
    let sep = Separator::Whitespace;
    if s.len() == 0 {
        assert(s == Seq::<char>::empty());
        law_white_space_ends_a_word(s, ' ', s);
    } else {
        let t = s.drop_last();
        let c = s.last();
        law_a_blank_text_has_no_words(t);
        assert(s[s.len() - 1] == c);
        assert(forall|i: int| 0 <= i < t.len() ==> #[trigger] t[i] == s[i]);
        if is_whitespace(c) {
            let none = Seq::<char>::empty();
            law_white_space_ends_a_word(t, c, none);
            law_white_space_ends_a_word(none, c, none);
            assert(t.push(c) + none == s);
            assert(words(s) == words(t));
            if is_blank(t) {
                assert forall|i: int| 0 <= i < s.len() implies is_whitespace(#[trigger] s[i]) by {
                    if i < t.len() {
                        assert(is_whitespace(t[i]));
                    }
                }
            }
            if is_blank(s) {
                assert forall|i: int| 0 <= i < t.len() implies is_whitespace(#[trigger] t[i]) by {
                    assert(is_whitespace(s[i]));
                }
            }
        } else {
            lemma_split_some(t, sep);
            let before = split_by(t, sep);
            assert(split_by(s, sep).last() == before.last().push(c));
            assert(words(s).len() > 0);
        }
    }
}

/// The texts of strings are theirs, one by one.
pub proof fn law_strings_have_their_texts(list: Seq<String>, s: Option<String>, i: int)
    ensures
        texts(list).len() == list.len(),
        0 <= i < list.len() ==> texts(list)[i] == list[i]@,
        opt_text(s) is Some <==> s is Some,
        s is Some ==> opt_text(s)->0 == s->0@,
{
}

} // verus!
