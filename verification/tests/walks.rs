use forensic_vfs_engine::walk::{is_dot_entry, Walk, WALK_MAX_DEPTH};

#[test]
fn dot_entries_are_skipped() {
    assert!(is_dot_entry(b"."));
    assert!(is_dot_entry(b".."));
    assert!(!is_dot_entry(b"..."));
    assert!(!is_dot_entry(b".x"));
    assert!(!is_dot_entry(b""));
}

/// A filesystem as (node, children) with names; node 1 is the root.
fn children(dir: u64) -> Vec<(&'static str, u64, bool)> {
    match dir {
        1 => vec![(".", 1, true), ("..", 1, true), ("a", 2, true), ("f.txt", 3, false)],
        // `a/loop` points back at the root: a directory cycle.
        2 => vec![("g.txt", 4, false), ("loop", 1, true)],
        _ => vec![],
    }
}

fn run(root: u64) -> Vec<Vec<String>> {
    let mut w = Walk::new(root);
    let mut out = Vec::new();
    while let Some(dir) = w.next_dir() {
        for (name, id, is_dir) in children(dir.dir) {
            if is_dot_entry(name.as_bytes()) {
                continue;
            }
            let path = w.descend(&dir, name.as_bytes().to_vec(), id, is_dir);
            out.push(path.into_iter().map(|c| String::from_utf8(c).unwrap()).collect());
        }
    }
    out
}

#[test]
fn a_walk_lists_every_node_once_despite_a_cycle() {
    let mut got = run(1);
    got.sort();
    let mut want: Vec<Vec<String>> = vec![
        vec!["a".into()],
        vec!["f.txt".into()],
        vec!["a".into(), "g.txt".into()],
        vec!["a".into(), "loop".into()],
    ];
    want.sort();
    assert_eq!(got, want);
}

#[test]
fn a_walk_hands_out_the_root_first_then_stops() {
    let mut w = Walk::new(5);
    let d = w.next_dir().expect("the root");
    assert_eq!((d.dir, d.depth, d.prefix.len()), (5, 0, 0));
    assert!(w.next_dir().is_none());
}

#[test]
fn a_walk_is_depth_capped() {
    // A chain of directories deeper than the cap: each level names a new node.
    let mut w = Walk::new(0);
    let mut listed = 0usize;
    while let Some(dir) = w.next_dir() {
        listed += 1;
        assert_eq!(dir.prefix.len(), dir.depth);
        let path = w.descend(&dir, b"d".to_vec(), dir.dir + 1, true);
        assert!(path.len() <= WALK_MAX_DEPTH + 1);
    }
    assert_eq!(listed, WALK_MAX_DEPTH + 1);
}
