use sme::config::Config;
use sme::entry::{Entry, Kind};
use sme::error::SmeError;
use sme::filter::{entry_type_keeps, filter_entries};

fn sample_entries() -> Vec<Entry> {
    vec![
        Entry { path: String::from("/tmp/x/a.txt"), kind: Kind::File },
        Entry { path: String::from("/tmp/x/sub"), kind: Kind::Dir },
        Entry { path: String::from("/tmp/x/sub/b.txt"), kind: Kind::File },
    ]
}

fn config(pattern: &str, use_regex: bool, file_only: bool, dir_only: bool) -> Config {
    Config {
        root: String::from("/tmp/x"),
        pattern: String::from(pattern),
        action: String::new(),
        use_regex,
        file_only,
        dir_only,
        verbose: false,
        depth: None,
    }
}

#[test]
fn substring_with_file_constraint_keeps_matching_files() {
    let got = filter_entries(&sample_entries(), &config(".txt", false, true, false)).unwrap();
    assert_eq!(
        got,
        vec![String::from("/tmp/x/a.txt"), String::from("/tmp/x/sub/b.txt")]
    );
}

#[test]
fn substring_with_dir_constraint_keeps_matching_directories() {
    let got = filter_entries(&sample_entries(), &config("sub", false, false, true)).unwrap();
    assert_eq!(got, vec![String::from("/tmp/x/sub")]);
}

#[test]
fn no_type_constraint_keeps_every_entry() {
    let got = filter_entries(&sample_entries(), &config("", false, false, false)).unwrap();
    assert_eq!(got.len(), 3);
}

#[test]
fn contradictory_constraints_keep_like_no_constraint() {
    let both = filter_entries(&sample_entries(), &config(".txt", false, true, true)).unwrap();
    let neither = filter_entries(&sample_entries(), &config(".txt", false, false, false)).unwrap();
    assert_eq!(both, neither);
}

#[test]
fn empty_pattern_keeps_every_type_survivor_in_both_modes() {
    let substring = filter_entries(&sample_entries(), &config("", false, false, false)).unwrap();
    let regex = filter_entries(&sample_entries(), &config("", true, false, false)).unwrap();
    assert_eq!(substring.len(), 3);
    assert_eq!(regex, substring);
}

#[test]
fn substring_mode_takes_the_pattern_literally() {
    // As a regular expression "su." would match "sub"; as a literal it must not.
    let literal = filter_entries(&sample_entries(), &config("su.", false, false, false)).unwrap();
    assert!(literal.is_empty());
    let regex = filter_entries(&sample_entries(), &config("su.", true, false, false)).unwrap();
    assert_eq!(
        regex,
        vec![String::from("/tmp/x/sub"), String::from("/tmp/x/sub/b.txt")]
    );
}

#[test]
fn regex_mode_searches_unanchored() {
    let got = filter_entries(&sample_entries(), &config("b[.]txt", true, false, false)).unwrap();
    assert_eq!(got, vec![String::from("/tmp/x/sub/b.txt")]);
}

#[test]
fn substring_absent_from_every_path_keeps_nothing() {
    let got = filter_entries(&sample_entries(), &config("zzz", false, false, false)).unwrap();
    assert!(got.is_empty());
}

#[test]
fn invalid_regex_is_a_fatal_configuration_error() {
    let got = filter_entries(&sample_entries(), &config("(", true, false, false));
    match got {
        Err(SmeError::InvalidPattern(_)) => {}
        other => panic!("expected an invalid-pattern error, got {:?}", other),
    }
}

#[test]
fn invalid_regex_is_accepted_as_a_literal_substring() {
    let entries = vec![Entry { path: String::from("/tmp/x/a(b"), kind: Kind::File }];
    let got = filter_entries(&entries, &config("(", false, false, false)).unwrap();
    assert_eq!(got, vec![String::from("/tmp/x/a(b")]);
}

#[test]
fn verbose_filtering_keeps_the_same_survivors() {
    let mut c = config(".txt", false, true, false);
    c.verbose = true;
    let got = filter_entries(&sample_entries(), &c).unwrap();
    assert_eq!(
        got,
        vec![String::from("/tmp/x/a.txt"), String::from("/tmp/x/sub/b.txt")]
    );
}

#[test]
fn type_predicate_on_each_kind() {
    let file = Entry { path: String::from("/f"), kind: Kind::File };
    let dir = Entry { path: String::from("/d"), kind: Kind::Dir };
    let other = Entry { path: String::from("/o"), kind: Kind::Other };

    // No constraint keeps everything.
    assert!(entry_type_keeps(&file, false, false));
    assert!(entry_type_keeps(&dir, false, false));
    assert!(entry_type_keeps(&other, false, false));

    // Both constraints behave as none.
    assert!(entry_type_keeps(&file, true, true));
    assert!(entry_type_keeps(&dir, true, true));
    assert!(entry_type_keeps(&other, true, true));

    // A single constraint selects its kind.
    assert!(entry_type_keeps(&file, true, false));
    assert!(!entry_type_keeps(&dir, true, false));
    assert!(!entry_type_keeps(&other, true, false));
    assert!(entry_type_keeps(&dir, false, true));
    assert!(!entry_type_keeps(&file, false, true));
    assert!(!entry_type_keeps(&other, false, true));
}
