use wtool::explorer::{walk_tree, DirTree, Entry, FileExplorer, TreeNode};

fn node(parent: usize, path: &str, is_dir: bool, content: &[u8]) -> TreeNode {
    TreeNode {
        parent,
        path: path.to_string(),
        is_dir,
        content: content.to_vec(),
    }
}

/// root
/// ├── a.txt
/// ├── b.txt
/// └── sub
///     └── c.txt
fn sample_tree() -> DirTree {
    DirTree {
        nodes: vec![
            node(0, "/r", true, b""),
            node(0, "/r/a.txt", false, b"aaa"),
            node(0, "/r/b.txt", false, b"bbb"),
            node(0, "/r/sub", true, b""),
            node(3, "/r/sub/c.txt", false, b"ccc"),
        ],
    }
}

#[test]
fn recursive_walk_is_breadth_first() {
    let tree = sample_tree();
    let order = walk_tree(&tree, true);
    assert_eq!(order, vec![1, 2, 3, 4]);
}

#[test]
fn nonrecursive_walk_yields_immediate_children_only() {
    let tree = sample_tree();
    let order = walk_tree(&tree, false);
    assert_eq!(order, vec![1, 2, 3]);
}

#[test]
fn walk_is_deterministic() {
    let tree = sample_tree();
    assert_eq!(walk_tree(&tree, true), walk_tree(&tree, true));
    assert_eq!(walk_tree(&tree, false), walk_tree(&tree, false));
}

#[test]
fn walk_never_yields_a_node_twice() {
    let tree = sample_tree();
    let order = walk_tree(&tree, true);
    let mut seen = order.clone();
    seen.sort();
    seen.dedup();
    assert_eq!(seen.len(), order.len());
    assert!(order.len() <= tree.nodes.len());
}

#[test]
fn deep_tree_terminates() {
    // A chain of fifty nested directories with one file at the bottom.
    let mut nodes = vec![node(0, "/d0", true, b"")];
    for i in 1..50 {
        nodes.push(node(i - 1, &format!("/d{}", i), true, b""));
    }
    nodes.push(node(49, "/leaf.txt", false, b"x"));
    let tree = DirTree { nodes };
    let order = walk_tree(&tree, true);
    assert_eq!(order.len(), 50);
    assert_eq!(*order.last().unwrap(), 50);
    assert_eq!(walk_tree(&tree, false), vec![1]);
}

#[test]
fn file_root_is_the_single_yield() {
    let tree = DirTree {
        nodes: vec![node(0, "/only.txt", false, b"data")],
    };
    assert_eq!(walk_tree(&tree, true), vec![0]);
    assert_eq!(walk_tree(&tree, false), vec![0]);
}

#[test]
fn explorer_queues_follow_the_listing() {
    let mut ex = FileExplorer::create(
        Entry {
            path: "/r".to_string(),
            is_dir: true,
        },
        true,
    );
    assert!(!ex.eof());
    assert!(!ex.has_file());
    assert_eq!(ex.next_folder(), "/r");
    ex.push_listing(vec![
        Entry {
            path: "/r/a".to_string(),
            is_dir: false,
        },
        Entry {
            path: "/r/s".to_string(),
            is_dir: true,
        },
    ]);
    assert!(ex.has_file());
    assert_eq!(ex.next().path, "/r/a");
    assert_eq!(ex.next().path, "/r/s");
    assert!(!ex.has_file());
    // The child directory is still pending.
    assert!(!ex.eof());
    assert_eq!(ex.next_folder(), "/r/s");
    ex.push_listing(vec![]);
    assert!(ex.eof());
}

#[test]
fn nonrecursive_explorer_descends_nowhere() {
    let mut ex = FileExplorer::create(
        Entry {
            path: "/r".to_string(),
            is_dir: true,
        },
        false,
    );
    assert_eq!(ex.next_folder(), "/r");
    ex.push_listing(vec![Entry {
        path: "/r/s".to_string(),
        is_dir: true,
    }]);
    // The child directory is yielded as an entry but never queued for listing.
    assert_eq!(ex.next().path, "/r/s");
    assert!(ex.eof());
}
