use hk::paths::{PathSet, Place, RepoPath};
use hk::step::Platform;
use std::collections::BTreeSet;
use std::path::{Path, PathBuf};

const PATHS: [&str; 20] = [
    "",
    ".",
    "./a",
    "a",
    "a/",
    "a/.",
    "a//b",
    "a/b",
    "a/./b",
    "a/../b",
    "..",
    "/",
    "/a",
    "//a",
    "a b",
    "a.b",
    "ab",
    "b",
    "é/x",
    "a/b/c.rs",
];

#[test]
fn paths_are_ordered_as_std_orders_them() {
    for a in PATHS {
        for b in PATHS {
            let expected = Path::new(a).cmp(Path::new(b));
            let place = RepoPath::from_text(a).place(&RepoPath::from_text(b));
            let agrees = match place {
                Place::Before => expected.is_lt(),
                Place::Same => expected.is_eq(),
                Place::After => expected.is_gt(),
            };
            assert!(agrees, "{a:?} {b:?}");
            assert_eq!(
                RepoPath::from_text(a).names_same(&RepoPath::from_text(b)),
                Path::new(a) == Path::new(b)
            );
        }
    }
}

#[test]
fn a_set_of_paths_holds_what_a_sorted_set_holds() {
    let list: Vec<RepoPath> = PATHS.iter().map(|p| RepoPath::from_text(p)).collect();
    let set = PathSet::collect(&list);
    let mut expected: BTreeSet<PathBuf> = BTreeSet::new();
    for p in PATHS {
        expected.insert(PathBuf::from(p));
    }
    let found: Vec<PathBuf> = set
        .items
        .iter()
        .map(|p| PathBuf::from(p.to_text().unwrap()))
        .collect();
    let wanted: Vec<PathBuf> = expected.iter().cloned().collect();
    assert_eq!(found, wanted);
    for p in ["a", "a//b", "nope", "/a/", "é/x"] {
        assert_eq!(
            set.contains(&RepoPath::from_text(p)),
            expected.contains(Path::new(p)),
            "{p}"
        );
    }
}

#[test]
fn a_set_keeps_the_first_spelling() {
    let list = vec![
        RepoPath::from_text("b"),
        RepoPath::from_text("a//x"),
        RepoPath::from_text("a/x"),
        RepoPath::from_text("b"),
    ];
    let set = PathSet::collect(&list);
    let texts: Vec<String> = set.items.iter().map(|p| p.to_text().unwrap()).collect();
    assert_eq!(texts, ["a//x", "b"]);
    let copy = set.copy();
    assert_eq!(copy.items.len(), 2);
}

#[test]
fn bytes_that_are_no_text_stay_bytes() {
    let p = RepoPath {
        raw: vec![b'a', 0xff],
    };
    assert_eq!(p.to_text(), None);
    assert_eq!(p.copy().raw, vec![b'a', 0xff]);
    assert_eq!(RepoPath::from_text("né").to_text().unwrap(), "né");
}

#[test]
fn relative_paths_go_below_a_directory() {
    let base = RepoPath::from_text("/work");
    for (p, expected) in [("x/y", "/work/x/y"), ("/abs", "/abs"), ("", "/work/")] {
        let path = RepoPath::from_text(p);
        assert_eq!(path.is_relative(Platform::Linux), Path::new(p).is_relative());
        assert_eq!(path.below(&base, Platform::Linux).to_text().unwrap(), expected);
        assert_eq!(
            Path::new("/work").join(p),
            PathBuf::from(path.below(&base, Platform::Linux).to_text().unwrap())
        );
    }
    let root = RepoPath::from_text("/");
    assert_eq!(
        RepoPath::from_text("x").below(&root, Platform::Linux).to_text().unwrap(),
        "/x"
    );
}

#[test]
fn drives_and_shares_are_roots_on_windows() {
    for (p, relative) in [
        ("C:/r/.git", false),
        ("c:\\r", false),
        ("C:", true),
        ("C:r", true),
        ("\\r", true),
        ("/r", true),
        ("r\\s", true),
        ("", true),
        ("\\\\server\\share", false),
        ("//server/share/x", false),
        ("\\\\server", true),
        ("\\\\server\\", true),
        ("\\\\?\\C:\\x", false),
        ("\\\\?\\", false),
        ("\\\\?\\UNC\\", false),
        ("\\\\.\\", false),
        ("//./COM1", false),
        ("\\\\?", true),
        ("//?/", true),
        ("//?/C:/x", false),
        ("1:/x", true),
    ] {
        let path = RepoPath::from_text(p);
        assert_eq!(path.is_relative(Platform::Windows), relative, "{p}");
    }
}

#[test]
fn paths_are_joined_by_drive_on_windows() {
    for (base, p, expected) in [
        ("C:/w", "C:/r/.git", "C:/r/.git"),
        ("C:/w", "sub/x", "C:/w\\sub/x"),
        ("C:\\w\\", "x", "C:\\w\\x"),
        ("C:\\w", "\\x", "C:\\x"),
        ("C:\\w", "/x", "C:/x"),
        ("C:\\w", "D:x", "D:x"),
        ("C:", "x", "C:x"),
        ("\\\\s\\t\\w", "\\x", "\\\\s\\t\\x"),
        ("\\\\s\\t", "x", "\\\\s\\t\\x"),
        ("\\\\.\\COM1\\w", "\\x", "\\\\.\\COM1\\x"),
        ("//./COM1", "../x", "//./COM1\\../x"),
        ("", "x", "x"),
    ] {
        let joined = RepoPath::from_text(p).below(&RepoPath::from_text(base), Platform::Windows);
        assert_eq!(joined.to_text().unwrap(), expected);
    }
}

#[test]
fn paths_below_a_verbatim_path_are_resolved() {
    for (base, p, expected) in [
        ("\\\\?\\C:\\w", "..\\x", "\\\\?\\C:\\x"),
        ("\\\\?\\C:\\w", ".\\a/b", "\\\\?\\C:\\w\\a\\b"),
        ("\\\\?\\C:\\w\\", "a//./b/", "\\\\?\\C:\\w\\a\\b"),
        ("\\\\?\\C:\\w", "../../..", "\\\\?\\C:\\"),
        ("\\\\?\\C:\\w", "/x/../y", "\\\\?\\C:\\y"),
        ("\\\\?\\C:\\w", "\\", "\\\\?\\C:\\"),
        ("\\\\?\\C:", "x", "\\\\?\\C:\\x"),
        ("\\\\?\\C:", ".", "\\\\?\\C:"),
        ("\\\\?\\C:\\a/b", "../x", "\\\\?\\C:\\x"),
        ("\\\\?\\C:\\a\\.", "../x", "\\\\?\\C:\\a\\.\\x"),
        ("\\\\?\\UNC\\s\\t\\w", "../x", "\\\\?\\UNC\\s\\t\\x"),
        ("\\\\?\\UNC\\s\\t\\w", "/x", "\\\\?\\UNC\\s\\t\\x"),
        ("\\\\?\\UNC\\s\\t", "x", "\\\\?\\UNC\\s\\t\\x"),
        ("\\\\?\\name\\w", "../../x", "\\\\?\\name\\x"),
        ("\\\\?\\C:\\w", "D:\\x", "D:\\x"),
        ("\\\\?\\C:\\w", "", "\\\\?\\C:\\w\\"),
    ] {
        let joined = RepoPath::from_text(p).below(&RepoPath::from_text(base), Platform::Windows);
        assert_eq!(joined.to_text().unwrap(), expected, "{base} {p}");
        assert!(!joined.is_relative(Platform::Windows));
    }
}

#[test]
fn a_collected_set_stands_in_order() {
    let list: Vec<RepoPath> = PATHS.iter().rev().map(|p| RepoPath::from_text(p)).collect();
    let set = PathSet::collect(&list);
    for pair in set.items.windows(2) {
        assert!(matches!(pair[0].place(&pair[1]), Place::Before));
    }
}
