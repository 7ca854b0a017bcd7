use hk::index::{parse_octal, write_octal};
use hk::text::{
    blank, concat3, contains, ends_with, last_piece, same, split, split_lines, split_once,
    split_records, split_words, starts_with, strip_prefix, trim, whitespace, Separator,
};

const SAMPLES: [&str; 14] = [
    "",
    " ",
    "\n",
    "\r\n",
    "a",
    "a\n",
    "a\r\nb\n\nc",
    " padded\t",
    "\u{a0}née\u{2003}",
    "one two  three",
    "a\0b\0\0c\0",
    "tab\tin\tit",
    "/usr/bin/zsh -c",
    "refs/remotes/origin/main",
];

#[test]
fn white_space_is_that_of_unicode() {
    for c in '\0'..=char::MAX {
        assert_eq!(whitespace(c), c.is_whitespace(), "{:x}", c as u32);
    }
}

#[test]
fn texts_are_split_as_std_splits_them() {
    for s in SAMPLES {
        let by_tab: Vec<&str> = s.split('\t').collect();
        assert_eq!(split(s, Separator::Char('\t')), by_tab);
        let lines: Vec<&str> = s.lines().collect();
        assert_eq!(split_lines(s), lines);
        let words: Vec<&str> = s.split_whitespace().collect();
        assert_eq!(split_words(s), words);
        let records: Vec<&str> = s.split('\0').filter(|r| !r.is_empty()).collect();
        assert_eq!(split_records(s), records);
        assert_eq!(
            last_piece(s, Separator::Slash),
            s.split(['/', '\\']).next_back().unwrap()
        );
        let once = s.split_once('\t').map(|(a, b)| (a.to_string(), b.to_string()));
        assert_eq!(split_once(s, '\t'), once);
        assert_eq!(trim(s), s.trim());
        assert_eq!(blank(s), s.trim().is_empty());
    }
}

#[test]
fn parts_are_found_as_std_finds_them() {
    for s in SAMPLES {
        for part in ["", "a", "\n", "refs/remotes/", "main", "two", "\t"] {
            assert_eq!(strip_prefix(s, part).as_deref(), s.strip_prefix(part));
            assert_eq!(starts_with(s, part), s.starts_with(part));
            assert_eq!(ends_with(s, part), s.ends_with(part));
            assert_eq!(contains(s, part), s.contains(part));
            assert_eq!(same(s, part), s == part);
        }
    }
    assert_eq!(concat3("é", "", "b"), "éb");
}

#[test]
fn joining_what_was_split_gives_the_text_back() {
    for s in SAMPLES {
        let pieces = split(s, Separator::Char('\n'));
        assert_eq!(pieces.join("\n"), s);
        for piece in pieces {
            assert!(!piece.contains('\n'));
        }
    }
}

#[test]
fn octal_numbers_are_read_as_std_reads_them() {
    for s in [
        "100644",
        "100755",
        "0",
        "",
        "+17",
        "+",
        "-1",
        "8",
        "37777777777",
        "40000000000",
        "00000000000000000007",
        "1 2",
    ] {
        assert_eq!(parse_octal(s), u32::from_str_radix(s, 8).ok(), "{s:?}");
    }
}

#[test]
fn octal_numbers_are_written_as_std_writes_them() {
    for n in [0u32, 1, 7, 8, 0o100644, 0o100755, 0o120000, 0o160000, u32::MAX] {
        assert_eq!(write_octal(n), format!("{n:o}"));
        assert_eq!(parse_octal(&write_octal(n)), Some(n));
    }
}
