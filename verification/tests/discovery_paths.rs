//! Discovery filtering and the byte-string path helpers.

use suite_builder::config::Config;
use suite_builder::discovery::{collect_tests, entry_matches, filter_fixtures};
use suite_builder::mode::Mode;
use suite_builder::paths::{extension, file_name, parent_dir, relative_to};
use suite_builder::suite::bytes_leq;

fn b(s: &str) -> Vec<u8> {
    s.as_bytes().to_vec()
}

#[test]
fn extension_of_plain_file() {
    assert_eq!(extension(&b("a/b.sol")), Some(b("sol")));
}

#[test]
fn extension_takes_the_last_dot() {
    assert_eq!(extension(&b("a/b.tar.gz")), Some(b("gz")));
}

#[test]
fn extension_of_dotless_file_is_none() {
    assert_eq!(extension(&b("a/Makefile")), None);
}

#[test]
fn extension_of_hidden_file_is_none() {
    assert_eq!(extension(&b("a/.gitignore")), None);
}

#[test]
fn extension_after_trailing_dot_is_empty() {
    assert_eq!(extension(&b("a/b.")), Some(b("")));
}

#[test]
fn dot_in_directory_is_no_extension() {
    assert_eq!(extension(&b("a.d/c")), None);
}

#[test]
fn file_name_after_last_separator() {
    assert_eq!(file_name(&b("a/b/c.sol")), b("c.sol"));
    assert_eq!(file_name(&b("c.sol")), b("c.sol"));
}

#[test]
fn parent_of_nested_path() {
    assert_eq!(parent_dir(&b("a/b/c.sol")), Some(b("a/b")));
}

#[test]
fn parent_of_bare_file_is_empty() {
    assert_eq!(parent_dir(&b("c.sol")), Some(b("")));
}

#[test]
fn parent_of_empty_path_is_none() {
    assert_eq!(parent_dir(&b("")), None);
}

#[test]
fn relative_to_strips_the_root() {
    assert_eq!(relative_to(&b("/proj/a/b.sol"), &b("/proj")), Some(b("a/b.sol")));
}

#[test]
fn foreign_path_has_no_relative_path() {
    assert_eq!(relative_to(&b("/else/a.sol"), &b("/proj")), None);
}

#[test]
fn relative_to_root_itself_is_empty() {
    assert_eq!(relative_to(&b("/proj"), &b("/proj")), Some(b("")));
}

#[test]
fn similarly_named_sibling_is_not_under_root() {
    assert_eq!(relative_to(&b("/proj2/a.sol"), &b("/proj")), None);
}

#[test]
fn ui_admits_sol_and_yul() {
    assert!(entry_matches(&b("t/a.sol"), Mode::Ui));
    assert!(entry_matches(&b("t/a.yul"), Mode::Ui));
    assert!(!entry_matches(&b("t/a.rs"), Mode::Ui));
    assert!(!entry_matches(&b("t/sol"), Mode::Ui));
}

#[test]
fn solc_solidity_admits_only_sol() {
    assert!(entry_matches(&b("t/a.sol"), Mode::SolcSolidity));
    assert!(!entry_matches(&b("t/a.yul"), Mode::SolcSolidity));
}

#[test]
fn solc_yul_admits_both() {
    assert!(entry_matches(&b("t/a.sol"), Mode::SolcYul));
    assert!(entry_matches(&b("t/a.yul"), Mode::SolcYul));
}

#[test]
fn filter_keeps_walk_order() {
    let entries = vec![
        (b("t"), false),
        (b("t/a.yul"), true),
        (b("t/b.sol"), true),
        (b("t/notes.txt"), true),
        (b("t/c.sol"), true),
    ];
    let kept = filter_fixtures(&entries, Mode::SolcSolidity);
    assert_eq!(kept, vec![b("t/b.sol"), b("t/c.sol")]);
}

#[test]
fn directory_named_like_a_fixture_is_dropped() {
    // Only regular files become test cases, whatever an entry is named.
    let entries = vec![(b("t/dir.sol"), false), (b("t/real.sol"), true)];
    let kept = filter_fixtures(&entries, Mode::Ui);
    assert_eq!(kept, vec![b("t/real.sol")]);
}

#[test]
fn filtering_twice_yields_identical_lists() {
    // Discovery is deterministic: the same walked tree always yields the
    // same ordered fixture list.
    let entries =
        vec![(b("t/a.yul"), true), (b("t/b.sol"), true), (b("t/d"), false), (b("t/c.sol"), true)];
    let once = filter_fixtures(&entries, Mode::Ui);
    let twice = filter_fixtures(&entries, Mode::Ui);
    assert_eq!(once, twice);
}

#[test]
fn walking_a_missing_tree_is_an_error() {
    // A broken fixture tree is a hard configuration error, not a test
    // failure.
    let config = Config::new(b("/bin/compiler"), b("/surely/not/a/real/root"), None);
    assert!(collect_tests(&config, Mode::Ui).is_err());
}

#[test]
fn bytewise_order_on_names() {
    assert!(bytes_leq(&b("a"), &b("b")));
    assert!(bytes_leq(&b("a"), &b("a")));
    assert!(bytes_leq(&b("a"), &b("ab")));
    assert!(!bytes_leq(&b("ab"), &b("a")));
    assert!(!bytes_leq(&b("b"), &b("ab")));
    assert!(bytes_leq(&b("[solc-yul] x"), &b("[ui] a")));
}
