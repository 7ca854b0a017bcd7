//! Entries of the git index, as `git ls-files -s` prints them.
use crate::paths::{same_path, PathSet, RepoPath};
use crate::text::{parted, split_once, split_records, split_words, texts, to_chars, words};
use vstd::prelude::*;
use vstd::utf8::encode_utf8;

verus! {

/// The mode of a regular file, which stands in for a mode that cannot be read.
pub const REGULAR_FILE: u32 = 0o100644;

/// An entry of the index.
#[derive(Debug)]
pub struct IndexEntry {
    /// The file mode.
    pub mode: u32,
    /// The name of the blob.
    pub oid: String,
    /// The path.
    pub path: RepoPath,
}

/// What an index entry holds.
pub struct Entry {
    /// The file mode.
    pub mode: u32,
    /// The name of the blob.
    pub oid: Seq<char>,
    /// The path.
    pub path: Seq<u8>,
}

impl View for IndexEntry {
    type V = Entry;

    open spec fn view(&self) -> Entry {
        Entry { mode: self.mode, oid: self.oid@, path: self.path@ }
    }
}

/// The contents of a list of index entries.
pub open spec fn entries(list: Seq<IndexEntry>) -> Seq<Entry> {
    Seq::new(list.len(), |i: int| list[i]@)
}

/// Whether `c` is an octal digit.
pub open spec fn is_octal(c: char) -> bool {
    '0' <= c <= '7'
}

/// The number that octal digits write.
pub open spec fn octal_value(digits: Seq<char>) -> nat
    decreases digits.len(),
{
    if digits.len() == 0 {
        0
    } else {
        8 * octal_value(digits.drop_last()) + (digits.last() as nat - '0' as nat) as nat
    }
}

/// Digits of an octal number, after the plus sign that may lead them.
pub open spec fn octal_digits(s: Seq<char>) -> Seq<char> {
    if s.len() > 0 && s[0] == '+' {
        s.drop_first()
    } else {
        s
    }
}

/// The number that a text writes in octal: an optional plus sign and at least
/// one digit, of a value that 32 bits hold.
pub open spec fn octal(s: Seq<char>) -> Option<u32> {
    let digits = octal_digits(s);
    if digits.len() > 0 && (forall|i: int| 0 <= i < digits.len() ==> is_octal(#[trigger] digits[i]))
        && octal_value(digits) <= u32::MAX {
        Some(octal_value(digits) as u32)
    } else {
        None
    }
}

/// A number written in octal.
pub open spec fn in_octal(n: nat) -> Seq<char>
    decreases n,
{
    let digit = ('0' as nat + n % 8) as char;
    if n < 8 {
        seq![digit]
    } else {
        in_octal(n / 8).push(digit)
    }
}

proof fn lemma_octal_grows(digits: Seq<char>, upto: int)
    requires
        0 <= upto <= digits.len(),
    ensures
        octal_value(digits.take(upto)) <= octal_value(digits),
    decreases digits.len() - upto,
{
    if upto < digits.len() {
        lemma_octal_grows(digits, upto + 1);
        assert(digits.take(upto + 1).drop_last() == digits.take(upto));
    } else {
        assert(digits.take(upto) == digits);
    }
}

/// Reads an octal number.
pub fn parse_octal(s: &str) -> (r: Option<u32>)
    ensures
        r == octal(s@),
{
    let chars = to_chars(s);
    let from: usize = if chars.len() > 0 && chars[0] == '+' {
        1
    } else {
        0
    };
    let ghost digits = octal_digits(s@);
    proof {
        assert(digits == chars@.skip(from as int));
    }
    if from == chars.len() {
        return None;
    }
    let mut value: u64 = 0;
    let mut i: usize = from;
    proof {
        assert(digits.take(0) == Seq::<char>::empty());
    }
    while i < chars.len()
        invariant
            from <= i <= chars.len(),
            digits == chars@.skip(from as int),
            digits == octal_digits(s@),
            value <= u32::MAX,
            value == octal_value(digits.take(i - from)),
            forall|k: int| 0 <= k < i - from ==> is_octal(#[trigger] digits[k]),
        decreases chars.len() - i,
    {
        let c = chars[i];
        proof {
            assert(digits[i - from] == c);
        }
        if c < '0' || c > '7' {
            proof {
                assert(!is_octal(digits[i - from]));
            }
            return None;
        }
        let digit: u64 = (c as u32 - '0' as u32) as u64;
        value = 8 * value + digit;
        proof {
            assert(digits.take(i - from + 1).drop_last() == digits.take(i - from));
            lemma_octal_grows(digits, i - from + 1);
        }
        if value > u32::MAX as u64 {
            return None;
        }
        i += 1;
    }
    proof {
        assert(digits.take(digits.len() as int) == digits);
    }
    Some(value as u32)
}

/// Writes a number in octal.
pub fn write_octal(n: u32) -> (r: String)
    ensures
        r@ == in_octal(n as nat),
    decreases n,
{
    let digit: u32 = n % 8;
    let c: char = if digit == 0 {
        '0'
    } else if digit == 1 {
        '1'
    } else if digit == 2 {
        '2'
    } else if digit == 3 {
        '3'
    } else if digit == 4 {
        '4'
    } else if digit == 5 {
        '5'
    } else if digit == 6 {
        '6'
    } else {
        '7'
    };
    let mut out = if n < 8 {
        String::new()
    } else {
        write_octal(n / 8)
    };
    let ghost before = out@;
    out.push(c);
    proof {
        assert(n < 8 ==> out@ == seq![c]);
    }
    out
}

proof fn lemma_in_octal(n: nat)
    ensures
        in_octal(n).len() > 0,
        forall|i: int| 0 <= i < in_octal(n).len() ==> is_octal(#[trigger] in_octal(n)[i]),
        octal_value(in_octal(n)) == n,
    decreases n,
{
    let digit = ('0' as nat + n % 8) as char;
    assert(is_octal(digit));
    if n < 8 {
        assert(in_octal(n).drop_last() == Seq::<char>::empty());
        assert(octal_value(Seq::<char>::empty()) == 0);
    } else {
        lemma_in_octal(n / 8);
        assert(in_octal(n).drop_last() == in_octal(n / 8));
    }
}

/// Reading back a mode that was written in octal gives the mode.
pub proof fn law_octal_round_trip(mode: u32)
    ensures
        octal(in_octal(mode as nat)) == Some(mode),
{
    lemma_in_octal(mode as nat);
    let s = in_octal(mode as nat);
    assert(is_octal(s[0]));
    assert(octal_digits(s) == s);
}

/// The fields of a record of `git ls-files -s -z`, which reads
/// `mode SP oid SP stage TAB path`: mode, blob and path. A record without a
/// tab, or without a blob, has none.
pub open spec fn record_fields(record: Seq<char>) -> Option<(Seq<char>, Seq<char>, Seq<char>)> {
    match parted(record, '\t') {
        Some((left, path)) => {
            let fields = words(left);
            if fields.len() >= 2 {
                Some((fields[0], fields[1], path))
            } else {
                None
            }
        },
        None => None,
    }
}

/// Reads the fields of a record.
pub fn split_record(record: &str) -> (r: Option<(String, String, String)>)
    ensures
        match r {
            Some((mode, oid, path)) => record_fields(record@) == Some((mode@, oid@, path@)),
            None => record_fields(record@) is None,
        },
{
    match split_once(record, '\t') {
        Some((left, path)) => {
            let fields = split_words(left.as_str());
            if fields.len() >= 2 {
                proof {
                    assert(words(left@)[0] == fields@[0]@);
                    assert(words(left@)[1] == fields@[1]@);
                }
                Some((fields[0].clone(), fields[1].clone(), path))
            } else {
                None
            }
        },
        None => None,
    }
}

/// The entry that a record is saved as. A mode that cannot be read counts as
/// that of a regular file.
pub open spec fn saved_entry(record: Seq<char>) -> Option<Entry> {
    match record_fields(record) {
        Some((mode, oid, path)) => Some(
            Entry {
                mode: match octal(mode) {
                    Some(m) => m,
                    None => REGULAR_FILE,
                },
                oid,
                path: encode_utf8(path),
            },
        ),
        None => None,
    }
}

/// The entries that a list of records is saved as.
pub open spec fn saved_entries(list: Seq<Seq<char>>) -> Seq<Entry>
    decreases list.len(),
{
    if list.len() == 0 {
        Seq::empty()
    } else {
        let before = saved_entries(list.drop_last());
        match saved_entry(list.last()) {
            Some(e) => before.push(e),
            None => before,
        }
    }
}

/// Reads the index entries to save from `git ls-files -s -z` output.
pub fn parse_saved_entries(output: &str) -> (r: Vec<IndexEntry>)
    ensures
        entries(r@) == saved_entries(crate::text::records(output@)),
{
    let list = split_records(output);
    let ghost all = texts(list@);
    let mut out: Vec<IndexEntry> = Vec::new();
    let mut i: usize = 0;
    proof {
        assert(entries(out@) == saved_entries(all.take(0)));
    }
    while i < list.len()
        invariant
            i <= list.len(),
            all == texts(list@),
            entries(out@) == saved_entries(all.take(i as int)),
        decreases list.len() - i,
    {
        let ghost was = out@;
        proof {
            assert(all.take(i + 1).drop_last() == all.take(i as int));
            assert(all.take(i + 1).last() == list@[i as int]@);
        }
        if let Some((mode, oid, path)) = split_record(list[i].as_str()) {
            let mode: u32 = match parse_octal(mode.as_str()) {
                Some(m) => m,
                None => REGULAR_FILE,
            };
            let entry = IndexEntry { mode, oid, path: RepoPath::from_text(path.as_str()) };
            let ghost e = entry@;
            out.push(entry);
            proof {
                assert(entries(out@) == entries(was).push(e));
            }
        }
        i += 1;
    }
    proof {
        assert(all.take(all.len() as int) == all);
    }
    out
}

/// The entry of a record that a fixer staged: its path is among those with
/// staged changes, and its mode can be read.
pub open spec fn fixer_entry(record: Seq<char>, staged: Seq<Seq<u8>>) -> Option<Entry> {
    match record_fields(record) {
        Some((mode, oid, path)) => {
            if crate::paths::names_path(staged, encode_utf8(path)) && octal(mode) is Some {
                Some(Entry { mode: octal(mode)->0, oid, path: encode_utf8(path) })
            } else {
                None
            }
        },
        None => None,
    }
}

/// The entries of the records that fixers staged.
pub open spec fn fixer_entries(list: Seq<Seq<char>>, staged: Seq<Seq<u8>>) -> Seq<Entry>
    decreases list.len(),
{
    if list.len() == 0 {
        Seq::empty()
    } else {
        let before = fixer_entries(list.drop_last(), staged);
        match fixer_entry(list.last(), staged) {
            Some(e) => before.push(e),
            None => before,
        }
    }
}

/// Reads the entries that fixers staged from `git ls-files -s -z` output.
pub fn parse_fixer_entries(output: &str, staged: &PathSet) -> (r: Vec<IndexEntry>)
    ensures
        entries(r@) == fixer_entries(crate::text::records(output@), staged@),
{
    let list = split_records(output);
    let ghost all = texts(list@);
    let mut out: Vec<IndexEntry> = Vec::new();
    let mut i: usize = 0;
    proof {
        assert(entries(out@) == fixer_entries(all.take(0), staged@));
    }
    while i < list.len()
        invariant
            i <= list.len(),
            all == texts(list@),
            entries(out@) == fixer_entries(all.take(i as int), staged@),
        decreases list.len() - i,
    {
        let ghost was = out@;
        proof {
            assert(all.take(i + 1).drop_last() == all.take(i as int));
            assert(all.take(i + 1).last() == list@[i as int]@);
        }
        if let Some((mode, oid, path)) = split_record(list[i].as_str()) {
            let path = RepoPath::from_text(path.as_str());
            if staged.contains(&path) {
                if let Some(mode) = parse_octal(mode.as_str()) {
                    let entry = IndexEntry { mode, oid, path };
                    let ghost e = entry@;
                    out.push(entry);
                    proof {
                        assert(entries(out@) == entries(was).push(e));
                    }
                }
            }
        }
        i += 1;
    }
    proof {
        assert(all.take(all.len() as int) == all);
    }
    out
}

/// The last entry of a path in a list; a later entry replaces an earlier one.
pub open spec fn entry_of(list: Seq<Entry>, p: Seq<u8>) -> Option<Entry>
    decreases list.len(),
{
    if list.len() == 0 {
        None
    } else if same_path(list.last().path, p) {
        Some(list.last())
    } else {
        entry_of(list.drop_last(), p)
    }
}

/// Finds the last entry of a path.
pub fn find_entry<'a>(list: &'a Vec<IndexEntry>, p: &RepoPath) -> (r: Option<&'a IndexEntry>)
    ensures
        match r {
            Some(e) => entry_of(entries(list@), p@) == Some(e@),
            None => entry_of(entries(list@), p@) is None,
        },
{
    let ghost all = entries(list@);
    let mut i: usize = list.len();
    proof {
        assert(all.take(all.len() as int) == all);
    }
    while i > 0
        invariant
            i <= list.len(),
            all == entries(list@),
            entry_of(all, p@) == entry_of(all.take(i as int), p@),
        decreases i,
    {
        proof {
            assert(all.take(i as int).drop_last() == all.take(i - 1));
            assert(all.take(i as int).last() == list@[i - 1]@);
        }
        if list[i - 1].path.names_same(p) {
            return Some(&list[i - 1]);
        }
        i -= 1;
    }
    None
}

/// Octal digits count eight times as much one place further left. A text of
/// octal digits is read as its value if 32 bits hold it, with or without a plus
/// sign; no other text is.
pub proof fn law_octal_digits_are_read_by_their_places(digits: Seq<char>, d: char, s: Seq<char>)
    ensures
        octal_value(Seq::empty()) == 0,
        '0' <= d <= '7' ==> octal_value(digits.push(d)) == 8 * octal_value(digits) + (d as int
            - 48),
        digits.len() > 0 && (forall|i: int|
            0 <= i < digits.len() ==> '0' <= #[trigger] digits[i] <= '7') && octal_value(digits)
            <= 0xffff_ffff ==> octal(digits) == Some(octal_value(digits) as u32) && octal(
            seq!['+'] + digits,
        ) == Some(octal_value(digits) as u32),
        octal(s) matches Some(v) ==> exists|t: Seq<char>|
            {
                &&& s == t || s == seq!['+'] + t
                &&& t.len() > 0 && octal_value(t) == v
                &&& forall|i: int| 0 <= i < t.len() ==> '0' <= #[trigger] t[i] <= '7'
            },
{
    assert(digits.push(d).drop_last() == digits);
    if digits.len() > 0 && (forall|i: int|
        0 <= i < digits.len() ==> '0' <= #[trigger] digits[i] <= '7') {
        assert(digits[0] != '+');
        assert((seq!['+'] + digits).drop_first() == digits);
        assert forall|i: int| 0 <= i < digits.len() implies is_octal(#[trigger] digits[i]) by {}
    }
    if let Some(v) = octal(s) {
        let t = octal_digits(s);
        if s.len() > 0 && s[0] == '+' {
            assert(s == seq!['+'] + t);
        }
        assert(octal_value(t) == v);
        assert forall|i: int| 0 <= i < t.len() implies '0' <= #[trigger] t[i] <= '7' by {
            assert(is_octal(t[i]));
        }
    }
}

/// A record gives the mode, the blob and the path that it is made of, whatever
/// stage stands between them, and whatever the path holds.
pub proof fn law_a_record_gives_its_fields(
    mode: Seq<char>,
    oid: Seq<char>,
    stage: Seq<char>,
    path: Seq<char>,
)
    requires
        mode.len() > 0 && oid.len() > 0,
        forall|i: int| 0 <= i < mode.len() ==> !crate::text::is_whitespace(#[trigger] mode[i]),
        forall|i: int| 0 <= i < oid.len() ==> !crate::text::is_whitespace(#[trigger] oid[i]),
        forall|i: int| 0 <= i < stage.len() ==> !crate::text::is_whitespace(#[trigger] stage[i]),
    ensures
        record_fields((mode.push(' ') + (oid.push(' ') + stage)).push('\t') + path) == Some(
            (mode, oid, path),
        ),
{
    let left = mode.push(' ') + (oid.push(' ') + stage);
    assert forall|i: int| 0 <= i < left.len() implies left[i] != '\t' by {
        if i < mode.len() {
            assert(left[i] == mode[i]);
        } else if i > mode.len() && i - mode.len() - 1 < oid.len() {
            assert(left[i] == oid[i - mode.len() - 1]);
        } else if i > mode.len() + oid.len() + 1 {
            assert(left[i] == stage[i - mode.len() - oid.len() - 2]);
        }
    }
    crate::text::law_a_text_is_parted_at_the_first(left, '\t', path);
    crate::text::law_white_space_ends_a_word(mode, ' ', oid.push(' ') + stage);
    crate::text::law_white_space_ends_a_word(oid, ' ', stage);
    assert(words(left) == seq![mode] + (seq![oid] + words(stage)));
    assert(words(left)[0] == mode && words(left)[1] == oid);
}

/// A record without a tab has no fields, nor has one with fewer than two words
/// before its tab.
pub proof fn law_a_record_without_fields_has_none(left: Seq<char>, path: Seq<char>)
    requires
        !left.contains('\t'),
    ensures
        record_fields(left) is None,
        words(left).len() < 2 ==> record_fields(left.push('\t') + path) is None,
{
    crate::text::law_a_text_is_parted_at_the_first(left, '\t', path);
}

/// Every record with fields is saved, with its mode where that can be read and
/// as a regular file where it cannot, in the order of the records.
pub proof fn law_every_record_with_fields_is_saved(list: Seq<Seq<char>>)
    ensures
        saved_entries(list) == list.filter_map(
            |record: Seq<char>|
                match record_fields(record) {
                    Some((mode, oid, path)) => Some(
                        Entry {
                            mode: if octal(mode) is Some {
                                octal(mode)->0
                            } else {
                                0o100644
                            },
                            oid,
                            path: encode_utf8(path),
                        },
                    ),
                    None => None,
                },
        ),
    decreases list.len(),
{
    if list.len() > 0 {
        law_every_record_with_fields_is_saved(list.drop_last());
    }
}

/// Of the records of staged files all are kept whose path has staged changes
/// and whose mode can be read, in their order.
pub proof fn law_every_staged_change_is_a_fix(list: Seq<Seq<char>>, staged: Seq<Seq<u8>>)
    ensures
        fixer_entries(list, staged) == list.filter_map(
            |record: Seq<char>|
                match record_fields(record) {
                    Some((mode, oid, path)) => if octal(mode) is Some && crate::paths::names_path(
                        staged,
                        encode_utf8(path),
                    ) {
                        Some(Entry { mode: octal(mode)->0, oid, path: encode_utf8(path) })
                    } else {
                        None
                    },
                    None => None,
                },
        ),
    decreases list.len(),
{
    if list.len() > 0 {
        law_every_staged_change_is_a_fix(list.drop_last(), staged);
    }
}

/// The last entry of a path is the one that counts, and a path without an
/// entry has none.
pub proof fn law_the_last_entry_of_a_path_counts(list: Seq<Entry>, p: Seq<u8>, i: int)
    requires
        0 <= i < list.len(),
        forall|k: int| i < k < list.len() ==> !same_path((#[trigger] list[k]).path, p),
    ensures
        same_path(list[i].path, p) ==> entry_of(list, p) == Some(list[i]),
        (forall|k: int| 0 <= k < list.len() ==> !same_path((#[trigger] list[k]).path, p))
            ==> entry_of(list, p) is None,
        entry_of(Seq::empty(), p) is None,
    decreases list.len(),
{
    let rest = list.drop_last();
    if i < rest.len() {
        assert(!same_path(list[list.len() - 1].path, p));
        assert(rest[i] == list[i]);
        assert forall|k: int| i < k < rest.len() implies !same_path(
            (#[trigger] rest[k]).path,
            p,
        ) by {
            assert(rest[k] == list[k]);
        }
        law_the_last_entry_of_a_path_counts(rest, p, i);
        if forall|k: int| 0 <= k < list.len() ==> !same_path((#[trigger] list[k]).path, p) {
            assert forall|k: int| 0 <= k < rest.len() implies !same_path(
                (#[trigger] rest[k]).path,
                p,
            ) by {
                assert(rest[k] == list[k]);
            }
        }
    } else if forall|k: int| 0 <= k < list.len() ==> !same_path((#[trigger] list[k]).path, p) {
        assert(!same_path(list[i].path, p));
        lemma_no_entry(list, p);
    }
}

proof fn lemma_no_entry(list: Seq<Entry>, p: Seq<u8>)
    requires
        forall|k: int| 0 <= k < list.len() ==> !same_path((#[trigger] list[k]).path, p),
    ensures
        entry_of(list, p) is None,
    decreases list.len(),
{
    if list.len() > 0 {
        assert(!same_path(list[list.len() - 1].path, p));
        let rest = list.drop_last();
        assert forall|k: int| 0 <= k < rest.len() implies !same_path(
            (#[trigger] rest[k]).path,
            p,
        ) by {
            assert(rest[k] == list[k]);
        }
        lemma_no_entry(rest, p);
    }
}

/// A number is written in octal place by place, without a sign or leading
/// zeros.
pub proof fn law_octal_is_written_by_places(n: nat, d: nat)
    requires
        d < 8,
    ensures
        in_octal(d) == seq![(48 + d) as char],
        n > 0 ==> in_octal(8 * n + d) == in_octal(n).push((48 + d) as char),
{
    assert((8 * n + d) / 8 == n);
    assert((8 * n + d) % 8 == d);
}

} // verus!
