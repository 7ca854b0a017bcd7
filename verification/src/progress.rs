//! The message that tells how a job is doing.
use crate::text::concat2;
use vstd::prelude::*;

verus! {

/// Cap on the progress message of a job, in printable characters. A command
/// can be a long script, and the message is printed with every update.
pub const MAX_PROGRESS_MESSAGE_CHARS: usize = 2048;

/// Whether a character is printable ASCII.
pub open spec fn is_printable(c: char) -> bool {
    ' ' <= c <= '~'
}

/// Whether a character takes one column: printable ASCII, and the ellipsis and
/// the dash that messages are made with.
pub open spec fn is_narrow(c: char) -> bool {
    is_printable(c) || c == '…' || c == '–'
}

/// Whether a text is made of characters that take one column each.
pub open spec fn all_narrow(s: Seq<char>) -> bool {
    forall|i: int| 0 <= i < s.len() ==> is_narrow(#[trigger] s[i])
}

/// Whether a character ends a control sequence: it sets colours, moves, erases
/// or switches something.
pub open spec fn ends_sequence(c: char) -> bool {
    'A' <= c <= 'P' || c == 'R' || c == 'Z' || c == 'c' || 'f' <= c <= 'n' || c == 'q' || c == 'r'
        || c == 'y' || c == '=' || c == '>' || c == '<'
}

/// Whether a character is a decimal digit.
pub open spec fn is_digit(c: char) -> bool {
    '0' <= c <= '9'
}

/// Whether a text would belong to a control sequence in front of it that ends
/// in a digit.
pub open spec fn extends_sequence(s: Seq<char>) -> bool {
    s.len() > 0 && (is_digit(s[0]) || s[0] == ';' || ends_sequence(s[0]))
}

/// How many characters there are to the end of a control sequence: numbers of
/// up to four digits, with semicolons between them, and the character that ends
/// it. Where none does, a digit may, and a fifth digit always does.
pub open spec fn sequence_end(s: Seq<char>, digits: nat) -> Option<nat>
    decreases s.len(),
{
    if !extends_sequence(s) {
        if digits > 0 {
            Some(0)
        } else {
            None
        }
    } else if ends_sequence(s[0]) || (is_digit(s[0]) && digits >= 4) {
        Some(1)
    } else {
        let seen: nat = if s[0] == ';' {
            0
        } else {
            digits + 1
        };
        match sequence_end(s.drop_first(), seen) {
            Some(n) => Some(n + 1),
            None => None,
        }
    }
}

/// How many of the marks that tell kinds of control sequences a text starts
/// with.
pub open spec fn marks_len(s: Seq<char>) -> nat
    decreases s.len(),
{
    if s.len() > 0 && (s[0] == '[' || s[0] == '(' || s[0] == ')' || s[0] == '#' || s[0] == ';'
        || s[0] == '?') {
        1 + marks_len(s.drop_first())
    } else {
        0
    }
}

/// How many characters there are to the end of a string that a terminal reads
/// as one command. The string terminator ends it, and a bell may.
pub open spec fn string_end(s: Seq<char>, bell: bool) -> Option<nat>
    decreases s.len(),
{
    if s.len() == 0 {
        None
    } else if s[0] == '\u{9c}' || (bell && s[0] == '\u{7}') {
        Some(1)
    } else if s[0] == '\u{1b}' {
        if s.len() >= 2 && s[1] == '\\' {
            Some(2)
        } else {
            None
        }
    } else {
        match string_end(s.drop_first(), bell) {
            Some(n) => Some(n + 1),
            None => None,
        }
    }
}

/// The length of the control sequence that a text starts with; none where it
/// starts with something else, or with a sequence that is not whole. After an
/// escape come marks and numbers, such as in `\x1b[1;31m`, one of the first
/// character sets behind a bracket, or a string behind a `]` or a `P`, such as
/// a title or a link. The character `\u{9b}` can stand in place of an escape.
pub open spec fn sequence_len(s: Seq<char>) -> nat {
    if s.len() < 2 || (s[0] != '\u{1b}' && s[0] != '\u{9b}') {
        0
    } else if s[0] == '\u{1b}' && (s[1] == ']' || s[1] == 'P') {
        match string_end(s.skip(2), s[1] == ']') {
            Some(n) => n + 2,
            None => 0,
        }
    } else if s.len() >= 3 && (s[1] == '(' || s[1] == ')') && '0' <= s[2] <= '2' {
        3
    } else {
        let from = marks_len(s.drop_first()) + 1;
        match sequence_end(s.skip(from as int), 0) {
            Some(n) => n + from,
            None => 0,
        }
    }
}

/// Whether a text is made of narrow characters and whole control sequences.
pub open spec fn is_styled(s: Seq<char>) -> bool
    decreases s.len(),
{
    if s.len() == 0 {
        true
    } else if 0 < sequence_len(s) <= s.len() {
        is_styled(s.skip(sequence_len(s) as int))
    } else {
        is_narrow(s[0]) && is_styled(s.drop_first())
    }
}

/// A text without its control sequences.
pub open spec fn unstyled(s: Seq<char>) -> Seq<char>
    decreases s.len(),
{
    if s.len() == 0 {
        s
    } else if 0 < sequence_len(s) <= s.len() {
        unstyled(s.skip(sequence_len(s) as int))
    } else {
        seq![s[0]] + unstyled(s.drop_first())
    }
}

/// What `console::measure_text_width` returns: the columns that a text takes.
pub uninterp spec fn text_width(s: Seq<char>) -> nat;

/// Calls `console::measure_text_width`. Claims that what it returns depends on
/// the text alone, and that in a text of narrow characters and control
/// sequences each of those characters takes one column and the sequences take
/// none. How wide other characters are, and what counts as a sequence beyond
/// those of [`sequence_len`], is left to the crate.
#[verifier::external_body]
fn measure_text_width(s: &str) -> (r: usize)
    ensures
        r as nat == text_width(s@),
        is_styled(s@) ==> r as nat == unstyled(s@).len(),
{
    console::measure_text_width(s)
}

/// What `console::truncate_str` returns for a text, a width and a tail.
pub uninterp spec fn truncated_text(s: Seq<char>, width: nat, tail: Seq<char>) -> Seq<char>;

/// The part of a text that is left in front of a tail.
pub open spec fn cut_before(s: Seq<char>, width: nat, tail: Seq<char>) -> Seq<char> {
    s.take(
        if width >= tail.len() {
            width - tail.len()
        } else {
            0
        },
    )
}

/// Whether a text is cut at a place, with a tail there.
pub open spec fn is_cut_at(s: Seq<char>, k: int, tail: Seq<char>, r: Seq<char>) -> bool {
    0 <= k <= s.len() && (s.take(k) + tail).is_prefix_of(r)
}

/// Whether as much of a narrow start of a text is kept as leaves room for a
/// narrow tail.
pub open spec fn keeps_start(s: Seq<char>, width: nat, tail: Seq<char>, r: Seq<char>) -> bool {
    forall|k: int|
        0 <= k <= s.len() && k + tail.len() <= width && all_narrow(#[trigger] s.take(k))
            ==> s.take(k).is_prefix_of(r)
}

/// Calls `console::truncate_str`. Claims that what it returns depends on the
/// text, the width and the tail alone, and that a text that fits is returned
/// as it is. Any other text is cut somewhere, and the tail follows what is
/// kept; of narrow characters at its start as many are kept as leave room for
/// a narrow tail. Of a narrow text that does not fit just as much is kept as
/// leaves that room. In a text with control sequences, and with a tail that
/// extends none, the same happens to the characters around them, no sequence is
/// torn, and the result is as wide as it has such characters. Which sequences
/// stand before the tail and which behind it, and where between its narrow
/// start and its end a text with other characters is cut, is left to the crate.
#[verifier::external_body]
fn truncate_str(s: &str, width: usize, tail: &str) -> (r: String)
    ensures
        r@ == truncated_text(s@, width as nat, tail@),
        text_width(s@) <= width ==> r@ == s@,
        all_narrow(s@) && all_narrow(tail@) && s@.len() > width ==> r@ == cut_before(
            s@,
            width as nat,
            tail@,
        ) + tail@,
        is_styled(s@) && all_narrow(tail@) && !extends_sequence(tail@) && unstyled(s@).len()
            > width ==> is_styled(r@) && unstyled(r@) == cut_before(
            unstyled(s@),
            width as nat,
            tail@,
        ) + tail@ && text_width(r@) == unstyled(r@).len(),
        text_width(s@) > width ==> exists|k: int| is_cut_at(s@, k, tail@, r@),
        all_narrow(tail@) ==> keeps_start(s@, width as nat, tail@, r@),
{
    console::truncate_str(s, width, tail).into_owned()
}

/// A message cut to a number of columns.
pub open spec fn capped(s: Seq<char>, max_chars: nat) -> Seq<char> {
    if text_width(s) <= max_chars {
        s
    } else {
        truncated_text(s, max_chars, "…"@)
    }
}

/// A narrow message cut to a number of characters.
pub open spec fn cut_short(s: Seq<char>, max_chars: nat) -> Seq<char> {
    if s.len() <= max_chars {
        s
    } else {
        cut_before(s, max_chars, "…"@) + "…"@
    }
}

/// Whether `r` is what truncating a message to a number of columns gives.
pub open spec fn is_truncated(s: Seq<char>, max_chars: nat, r: Seq<char>) -> bool {
    &&& r == capped(s, max_chars)
    &&& text_width(s) > max_chars ==> exists|k: int| is_cut_at(s, k, "…"@, r)
    &&& keeps_start(s, max_chars, "…"@, r)
    &&& all_narrow(s) ==> r == cut_short(s, max_chars)
    &&& is_styled(s) ==> {
        &&& text_width(s) == unstyled(s).len()
        &&& is_styled(r) && text_width(r) == unstyled(r).len()
        &&& unstyled(r) == cut_short(unstyled(s), max_chars)
    }
}

proof fn lemma_narrow_is_styled(s: Seq<char>)
    requires
        all_narrow(s),
    ensures
        is_styled(s),
        unstyled(s) == s,
    decreases s.len(),
{
    if s.len() > 0 {
        assert(is_narrow(s[0]));
        let rest = s.drop_first();
        assert forall|i: int| 0 <= i < rest.len() implies is_narrow(#[trigger] rest[i]) by {
            assert(rest[i] == s[i + 1]);
        }
        lemma_narrow_is_styled(rest);
        assert(seq![s[0]] + rest == s);
    }
}

/// Truncate a progress message to `max_chars` printable characters with a
/// trailing `…`.
///
/// Escape sequences are neither split nor counted. A message that fits is
/// returned unchanged.
pub fn truncate_progress_message(s: &str, max_chars: usize) -> (r: String)
    ensures
        is_truncated(s@, max_chars as nat, r@),
{
    proof {
        reveal_strlit("…");
        if all_narrow(s@) {
            lemma_narrow_is_styled(s@);
        }
    }
    if measure_text_width(s) <= max_chars {
        proof {
            assert forall|k: int| 0 <= k <= s@.len() implies (#[trigger] s@.take(k)).is_prefix_of(
                s@,
            ) by {}
        }
        return s.to_owned();
    }
    truncate_str(s, max_chars, "…")
}

/// What is left of a text without its control sequences is narrow.
proof fn lemma_unstyled_is_narrow(s: Seq<char>)
    requires
        is_styled(s),
    ensures
        all_narrow(unstyled(s)),
    decreases s.len(),
{
    if s.len() > 0 {
        if 0 < sequence_len(s) <= s.len() {
            lemma_unstyled_is_narrow(s.skip(sequence_len(s) as int));
        } else {
            lemma_unstyled_is_narrow(s.drop_first());
            let rest = unstyled(s.drop_first());
            assert forall|i: int| 0 <= i < unstyled(s).len() implies is_narrow(
                #[trigger] unstyled(s)[i],
            ) by {
                if i > 0 {
                    assert(unstyled(s)[i] == rest[i - 1]);
                }
            }
        }
    }
}

/// A message of narrow characters and control sequences is as wide as asked
/// for, or as it was where that is less; it is unchanged where it fits, and
/// ends in an ellipsis, those sequences aside, where it does not.
pub proof fn law_messages_are_capped(s: Seq<char>, max_chars: nat, r: Seq<char>)
    requires
        max_chars >= 1,
        is_styled(s),
        is_truncated(s, max_chars, r),
    ensures
        text_width(r) == (if text_width(s) <= max_chars {
            text_width(s)
        } else {
            max_chars
        }),
        text_width(s) <= max_chars ==> r == s,
        text_width(s) > max_chars ==> unstyled(r).last() == '…',
        text_width(s) > max_chars ==> unstyled(r).drop_last().is_prefix_of(unstyled(s)),
{
    reveal_strlit("…");
    let p = unstyled(s);
    if text_width(s) > max_chars {
        assert(unstyled(r).drop_last() == p.take(max_chars - 1));
    }
}

/// Truncating twice is truncating once.
pub proof fn law_truncating_again_changes_nothing(
    s: Seq<char>,
    max_chars: nat,
    r: Seq<char>,
    again: Seq<char>,
)
    requires
        max_chars >= 1,
        is_styled(s),
        is_truncated(s, max_chars, r),
        is_truncated(r, max_chars, again),
    ensures
        again == r,
{
    law_messages_are_capped(s, max_chars, r);
}

/// Taking the sequences away and truncating can be done in either order.
pub proof fn law_styles_do_not_change_where_a_message_is_cut(
    s: Seq<char>,
    max_chars: nat,
    r: Seq<char>,
    plain: Seq<char>,
)
    requires
        is_styled(s),
        is_truncated(s, max_chars, r),
        is_truncated(unstyled(s), max_chars, plain),
    ensures
        unstyled(r) == plain,
{
    lemma_unstyled_is_narrow(s);
}

/// The decimal digits of a number.
pub open spec fn decimal(n: nat) -> Seq<char>
    decreases n,
{
    if n < 10 {
        seq![digit(n)]
    } else {
        decimal(n / 10).push(digit(n % 10))
    }
}

/// The digit of a number below ten.
pub open spec fn digit(n: nat) -> char {
    (('0' as u32) + n) as char
}

/// Writes a digit.
fn write_digit(n: usize) -> (r: char)
    requires
        n < 10,
    ensures
        r == digit(n as nat),
{
    if n == 0 {
        '0'
    } else if n == 1 {
        '1'
    } else if n == 2 {
        '2'
    } else if n == 3 {
        '3'
    } else if n == 4 {
        '4'
    } else if n == 5 {
        '5'
    } else if n == 6 {
        '6'
    } else if n == 7 {
        '7'
    } else if n == 8 {
        '8'
    } else {
        '9'
    }
}

/// Writes a number in decimal digits.
pub fn write_decimal(n: usize) -> (r: String)
    ensures
        r@ == decimal(n as nat),
    decreases n,
{
    if n < 10 {
        let mut out = String::new();
        out.push(write_digit(n));
        proof {
            assert(out@ == seq![digit(n as nat)]);
        }
        out
    } else {
        let mut out = write_decimal(n / 10);
        out.push(write_digit(n % 10));
        out
    }
}

/// What is said of a number of files.
pub open spec fn files_text(n: nat) -> Seq<char> {
    decimal(n) + " file"@ + (if n == 1 {
        Seq::empty()
    } else {
        "s"@
    })
}

/// Says how many files there are.
pub fn file_msg(n: usize) -> (r: String)
    ensures
        r@ == files_text(n as nat),
{
    let count = concat2(write_decimal(n).as_str(), " file");
    if n == 1 {
        proof {
            assert(count@ == files_text(1));
        }
        count
    } else {
        concat2(count.as_str(), "s")
    }
}

/// The whole message of a job: how many files, which pattern, which command.
pub open spec fn message_text(files: nat, pattern: Seq<char>, run: Seq<char>) -> Seq<char> {
    files_text(files) + " – "@ + pattern + " – "@ + run
}

/// Composes the message of a job.
pub fn compose_message(files: usize, pattern: &str, run: &str) -> (r: String)
    ensures
        r@ == message_text(files as nat, pattern@, run@),
{
    let a = concat2(file_msg(files).as_str(), " – ");
    let b = concat2(a.as_str(), pattern);
    let c = concat2(b.as_str(), " – ");
    concat2(c.as_str(), run)
}

proof fn lemma_sequence_end(s: Seq<char>, more: Seq<char>, digits: nat)
    requires
        sequence_end(s, digits) is Some,
        !extends_sequence(more),
    ensures
        sequence_end(s + more, digits) == sequence_end(s, digits),
        sequence_end(s, digits)->0 <= s.len(),
    decreases s.len(),
{
    let x = s + more;
    if s.len() == 0 {
        assert(x == more);
    } else {
        assert(x[0] == s[0]);
        if extends_sequence(s) && !ends_sequence(s[0]) && !(is_digit(s[0]) && digits >= 4) {
            assert(x.drop_first() == s.drop_first() + more);
            lemma_sequence_end(
                s.drop_first(),
                more,
                if s[0] == ';' {
                    0
                } else {
                    digits + 1
                },
            );
        }
    }
}

proof fn lemma_marks_len(s: Seq<char>, more: Seq<char>)
    requires
        marks_len(s) < s.len(),
    ensures
        marks_len(s + more) == marks_len(s),
    decreases s.len(),
{
    let x = s + more;
    assert(x[0] == s[0]);
    if marks_len(s) > 0 {
        assert(x.drop_first() == s.drop_first() + more);
        lemma_marks_len(s.drop_first(), more);
    }
}

proof fn lemma_string_end(s: Seq<char>, more: Seq<char>, bell: bool)
    requires
        string_end(s, bell) is Some,
    ensures
        string_end(s + more, bell) == string_end(s, bell),
        string_end(s, bell)->0 <= s.len(),
    decreases s.len(),
{
    let x = s + more;
    assert(x[0] == s[0]);
    if s[0] == '\u{9c}' || (bell && s[0] == '\u{7}') {
    } else if s[0] == '\u{1b}' {
        assert(x[1] == s[1]);
    } else {
        assert(x.drop_first() == s.drop_first() + more);
        lemma_string_end(s.drop_first(), more, bell);
    }
}

/// What follows a control sequence and does not extend it does not belong to
/// it.
proof fn lemma_sequence_joined(s: Seq<char>, more: Seq<char>)
    requires
        sequence_len(s) > 0,
        !extends_sequence(more),
    ensures
        sequence_len(s + more) == sequence_len(s),
        sequence_len(s) <= s.len(),
{
    let x = s + more;
    assert(x[0] == s[0] && x[1] == s[1]);
    if s[0] == '\u{1b}' && (s[1] == ']' || s[1] == 'P') {
        assert(x.skip(2) == s.skip(2) + more);
        lemma_string_end(s.skip(2), more, s[1] == ']');
    } else if s.len() >= 3 && (s[1] == '(' || s[1] == ')') && '0' <= s[2] <= '2' {
        assert(x[2] == s[2]);
    } else {
        let rest = s.drop_first();
        let from = marks_len(rest) + 1;
        lemma_marks_within(rest);
        assert(sequence_end(s.skip(from as int), 0) is Some);
        assert(s.skip(from as int).len() > 0);
        assert(x.drop_first() == rest + more);
        lemma_marks_len(rest, more);
        assert(x.skip(from as int) == s.skip(from as int) + more);
        lemma_sequence_end(s.skip(from as int), more, 0);
        if s.len() >= 3 {
            assert(x[2] == s[2]);
        } else {
            assert(rest.len() == 1);
            assert(marks_len(rest) == 0);
        }
    }
}

proof fn lemma_marks_within(s: Seq<char>)
    ensures
        marks_len(s) <= s.len(),
    decreases s.len(),
{
    if marks_len(s) > 0 {
        lemma_marks_within(s.drop_first());
    }
}

/// Texts with control sequences can be put one behind the other, where the
/// second does not extend a sequence of the first.
proof fn lemma_styled_joined(s: Seq<char>, t: Seq<char>)
    requires
        is_styled(s),
        is_styled(t),
        all_narrow(s) || !extends_sequence(t),
    ensures
        is_styled(s + t),
        unstyled(s + t) == unstyled(s) + unstyled(t),
    decreases s.len(),
{
    let x = s + t;
    if s.len() == 0 {
        assert(x == t);
        assert(unstyled(s) + unstyled(t) == unstyled(t));
    } else if 0 < sequence_len(s) <= s.len() {
        let n = sequence_len(s);
        assert(!is_narrow(s[0]));
        lemma_sequence_joined(s, t);
        assert(sequence_len(x) == n);
        assert(x.skip(n as int) == s.skip(n as int) + t);
        lemma_styled_joined(s.skip(n as int), t);
    } else {
        assert(is_narrow(s[0]));
        assert(x.drop_first() == s.drop_first() + t);
        if all_narrow(s) {
            let rest = s.drop_first();
            assert forall|i: int| 0 <= i < rest.len() implies is_narrow(#[trigger] rest[i]) by {
                assert(rest[i] == s[i + 1]);
            }
        }
        lemma_styled_joined(s.drop_first(), t);
        assert(seq![s[0]] + (unstyled(s.drop_first()) + unstyled(t)) == (seq![s[0]] + unstyled(
            s.drop_first(),
        )) + unstyled(t));
    }
}

proof fn lemma_decimal_is_narrow(n: nat)
    ensures
        all_narrow(decimal(n)),
    decreases n,
{
    if n >= 10 {
        lemma_decimal_is_narrow(n / 10);
    }
}

/// The message of a job whose pattern and command are made of narrow
/// characters and control sequences is never wider than the cap.
pub proof fn law_job_messages_are_capped(
    files: nat,
    pattern: Seq<char>,
    run: Seq<char>,
    max_chars: nat,
    r: Seq<char>,
)
    requires
        max_chars >= 1,
        is_styled(pattern),
        is_styled(run),
        is_truncated(message_text(files, pattern, run), max_chars, r),
    ensures
        is_styled(r),
        text_width(r) <= max_chars,
{
    reveal_strlit(" file");
    reveal_strlit("s");
    reveal_strlit(" – ");
    lemma_decimal_is_narrow(files);
    let count = files_text(files);
    assert(all_narrow(count));
    lemma_narrow_is_styled(count);
    lemma_narrow_is_styled(" – "@);
    let dash = " – "@;
    lemma_styled_joined(dash, run);
    lemma_styled_joined(pattern, dash + run);
    lemma_styled_joined(dash, pattern + (dash + run));
    lemma_styled_joined(count, dash + (pattern + (dash + run)));
    assert(message_text(files, pattern, run) == count + (dash + (pattern + (dash + run))));
    law_messages_are_capped(message_text(files, pattern, run), max_chars, r);
}

proof fn lemma_decimal_len(n: nat, bound: nat, digits: nat)
    requires
        n < bound,
        bound == power_of_ten(digits),
        digits >= 1,
    ensures
        decimal(n).len() <= digits,
    decreases digits,
{
    if n >= 10 {
        assert(digits > 1) by {
            reveal_with_fuel(power_of_ten, 2);
        }
        lemma_decimal_len(n / 10, power_of_ten((digits - 1) as nat), (digits - 1) as nat);
    }
}

/// One with a number of zeros.
spec fn power_of_ten(zeros: nat) -> nat
    decreases zeros,
{
    if zeros == 0 {
        1
    } else {
        10 * power_of_ten((zeros - 1) as nat)
    }
}

/// The message of a job starts with the number of files, whatever its pattern
/// and its command hold, and however long they are.
pub proof fn law_the_number_of_files_leads(
    files: usize,
    pattern: Seq<char>,
    run: Seq<char>,
    r: Seq<char>,
)
    requires
        is_truncated(
            message_text(files as nat, pattern, run),
            MAX_PROGRESS_MESSAGE_CHARS as nat,
            r,
        ),
    ensures
        (files_text(files as nat) + " – "@).is_prefix_of(r),
{
    reveal_strlit(" file");
    reveal_strlit("s");
    reveal_strlit(" – ");
    reveal_strlit("…");
    reveal_with_fuel(power_of_ten, 21);
    lemma_decimal_len(files as nat, power_of_ten(20), 20);
    lemma_decimal_is_narrow(files as nat);
    let s = message_text(files as nat, pattern, run);
    let start = files_text(files as nat) + " – "@;
    assert(s.take(start.len() as int) == start);
    assert(all_narrow(s.take(start.len() as int)));
}

/// A message that does not fit is cut, and an ellipsis stands where it is cut.
pub proof fn law_a_long_message_is_cut_with_an_ellipsis(
    s: Seq<char>,
    max_chars: nat,
    r: Seq<char>,
)
    requires
        is_truncated(s, max_chars, r),
    ensures
        text_width(s) <= max_chars ==> r == s,
        text_width(s) > max_chars ==> exists|k: int|
            0 <= k <= s.len() && k < r.len() && #[trigger] s.take(k) == r.take(k) && r[k] == '…',
{
    reveal_strlit("…");
    if text_width(s) > max_chars {
        let k = choose|k: int| is_cut_at(s, k, "…"@, r);
        let kept = s.take(k) + "…"@;
        assert forall|i: int| 0 <= i < kept.len() implies kept[i] == #[trigger] r[i] by {}
        assert(r[k] == kept[k]);
        assert(s.take(k) == r.take(k));
    }
}

/// Numbers are written digit by digit, and the number of files comes with the
/// word for it, in the plural unless it is one.
pub proof fn law_the_number_of_files_is_written_out(n: nat, d: nat)
    requires
        d < 10,
    ensures
        n > 0 ==> decimal(10 * n + d) == decimal(n).push(digit(d)),
        decimal(d) == seq![digit(d)],
        digit(d) as int == 48 + d,
        files_text(1) == decimal(1) + " file"@,
        n != 1 ==> files_text(n) == decimal(n) + " file"@ + "s"@,
{
    assert((10 * n + d) / 10 == n);
    assert((10 * n + d) % 10 == d);
    assert(decimal(1) + " file"@ + Seq::<char>::empty() == decimal(1) + " file"@);
}

/// A message is the number of files, the pattern and the command, with dashes
/// between them, whatever pattern and command hold.
pub proof fn law_a_message_is_put_together(files: nat, pattern: Seq<char>, run: Seq<char>)
    ensures
        message_text(files, pattern, run) == files_text(files) + (" – "@ + (pattern + (" – "@
            + run))),
{
    assert(message_text(files, pattern, run) == files_text(files) + (" – "@ + (pattern + (" – "@
        + run))));
}

/// A message that does not fit is cut to just the width that is asked for,
/// whatever it holds.
pub proof fn law_a_message_is_cut_to_the_width_asked_for(
    s: Seq<char>,
    max_chars: nat,
    r: Seq<char>,
)
    requires
        is_truncated(s, max_chars, r),
    ensures
        text_width(s) > max_chars ==> r == truncated_text(s, max_chars, seq!['…']),
        text_width(s) <= max_chars ==> r == s,
{
    reveal_strlit("…");
    assert("…"@ == seq!['…']);
}

} // verus!
