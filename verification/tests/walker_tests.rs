use sme::entry::{Entry, Kind};
use sme::walker::{FsTree, Walker};

fn sample_tree() -> FsTree {
    FsTree::Dir(
        String::from("/tmp/x"),
        vec![
            FsTree::File(String::from("/tmp/x/a.txt")),
            FsTree::Dir(
                String::from("/tmp/x/sub"),
                vec![FsTree::File(String::from("/tmp/x/sub/b.txt"))],
            ),
        ],
    )
}

fn reps(entries: &[Entry]) -> Vec<(String, Kind)> {
    let mut out: Vec<(String, Kind)> = entries
        .iter()
        .map(|e| (e.path.clone(), e.kind))
        .collect();
    out.sort();
    out
}

#[test]
fn walk_finds_every_descendant_and_not_the_root() {
    let found = sme::walker::walk(sample_tree());
    let got = reps(&found);
    let want = vec![
        (String::from("/tmp/x/a.txt"), Kind::File),
        (String::from("/tmp/x/sub"), Kind::Dir),
        (String::from("/tmp/x/sub/b.txt"), Kind::File),
    ];
    assert_eq!(got, want);
}

#[test]
fn walk_of_a_plain_file_finds_nothing() {
    let found = sme::walker::walk(FsTree::File(String::from("/tmp/alone")));
    assert!(found.is_empty());
}

#[test]
fn walk_keeps_entries_of_every_kind() {
    let tree = FsTree::Dir(
        String::from("/r"),
        vec![
            FsTree::Other(String::from("/r/socket")),
            FsTree::Dir(String::from("/r/empty"), vec![]),
            FsTree::File(String::from("/r/f")),
        ],
    );
    let got = reps(&sme::walker::walk(tree));
    let want = vec![
        (String::from("/r/empty"), Kind::Dir),
        (String::from("/r/f"), Kind::File),
        (String::from("/r/socket"), Kind::Other),
    ];
    assert_eq!(got, want);
}

#[test]
fn walker_machine_records_children_and_queues_directories() {
    let mut w = Walker::new(String::from("/tmp/x"));
    let first = w.next_pending();
    assert_eq!(first, Some(String::from("/tmp/x")));

    let children = vec![
        Entry { path: String::from("/tmp/x/a.txt"), kind: Kind::File },
        Entry { path: String::from("/tmp/x/sub"), kind: Kind::Dir },
    ];
    w.record_children(&children);

    let next = w.next_pending();
    assert_eq!(next, Some(String::from("/tmp/x/sub")));
    let grandchildren = vec![Entry { path: String::from("/tmp/x/sub/b.txt"), kind: Kind::File }];
    w.record_children(&grandchildren);

    assert_eq!(w.next_pending(), None);
    let got = reps(&w.into_found());
    let want = vec![
        (String::from("/tmp/x/a.txt"), Kind::File),
        (String::from("/tmp/x/sub"), Kind::Dir),
        (String::from("/tmp/x/sub/b.txt"), Kind::File),
    ];
    assert_eq!(got, want);
}

#[test]
fn walker_machine_does_not_queue_files() {
    let mut w = Walker::new(String::from("/root"));
    assert_eq!(w.next_pending(), Some(String::from("/root")));
    let children = vec![
        Entry { path: String::from("/root/a"), kind: Kind::File },
        Entry { path: String::from("/root/b"), kind: Kind::Other },
    ];
    w.record_children(&children);
    assert_eq!(w.next_pending(), None);
    assert_eq!(w.into_found().len(), 2);
}
