use sme::config::Config;
use sme::entry::Entry;
use sme::pipeline::run_pipeline;
use sme::walker::{walk, FsTree};

fn sample_tree() -> FsTree {
    FsTree::Dir(
        String::from("/tmp/x"),
        vec![
            FsTree::File(String::from("/tmp/x/a.txt")),
            FsTree::Dir(
                String::from("/tmp/x/sub"),
                vec![FsTree::File(String::from("/tmp/x/sub/b.txt"))],
            ),
        ],
    )
}

fn config(pattern: &str, action: &str) -> Config {
    Config {
        root: String::from("/tmp/x"),
        pattern: String::from(pattern),
        action: String::from(action),
        use_regex: false,
        file_only: false,
        dir_only: false,
        verbose: false,
        depth: None,
    }
}

#[test]
fn walk_filter_and_print_compose() {
    let entries: Vec<Entry> = walk(sample_tree());
    let c = config(".txt", "");
    assert!(run_pipeline(&entries, &c).is_ok());
}

#[test]
fn walk_filter_and_echo_compose() {
    let entries: Vec<Entry> = walk(sample_tree());
    let c = config(".txt", "echo");
    assert!(run_pipeline(&entries, &c).is_ok());
}

#[test]
fn a_compilable_regex_in_print_mode_succeeds() {
    let entries: Vec<Entry> = walk(sample_tree());
    let mut c = config("[.]txt$", "");
    c.use_regex = true;
    assert!(run_pipeline(&entries, &c).is_ok());
}

#[test]
fn a_bad_regex_fails_the_pipeline_before_any_action() {
    let entries: Vec<Entry> = walk(sample_tree());
    let mut c = config("(", "echo");
    c.use_regex = true;
    assert!(run_pipeline(&entries, &c).is_err());
}
