use wtool::codec::EncodingDescriptor;
use wtool::detect::EBomPolicy;
use wtool::explorer::{DirTree, Entry, TreeNode};
use wtool::scan::{ListFiles, ScanConfig};

fn node(parent: usize, path: &str, is_dir: bool, content: &[u8]) -> TreeNode {
    TreeNode {
        parent,
        path: path.to_string(),
        is_dir,
        content: content.to_vec(),
    }
}

/// root
/// ├── a.txt   valid UTF-8, no byte-order mark
/// ├── b.txt   UTF-8 with byte-order mark
/// └── sub
///     └── c.txt   invalid UTF-8 (a 0xFF byte)
fn sample_tree() -> DirTree {
    let mut with_bom = vec![0xEF, 0xBB, 0xBF];
    with_bom.extend_from_slice(b"hi");
    DirTree {
        nodes: vec![
            node(0, "/r", true, b""),
            node(0, "/r/a.txt", false, b"hello"),
            node(0, "/r/b.txt", false, &with_bom),
            node(0, "/r/sub", true, b""),
            node(3, "/r/sub/c.txt", false, &[0x66, 0xFF]),
        ],
    }
}

fn utf8_config() -> ScanConfig {
    ScanConfig::new(EncodingDescriptor::lookup("utf-8").unwrap())
}

#[test]
fn scan_ignore_policy_reports_conforming_files() {
    let tree = sample_tree();
    let mut cfg = utf8_config();
    cfg.set_recursive(true);
    let lines = ListFiles::run(&cfg, &tree);
    assert_eq!(lines, vec!["/r/a.txt", "/r/b.txt"]);
}

#[test]
fn scan_ignore_policy_lists_skipped_when_asked() {
    let tree = sample_tree();
    let mut cfg = utf8_config();
    cfg.set_recursive(true);
    cfg.set_list_skipped(true);
    let lines = ListFiles::run(&cfg, &tree);
    assert_eq!(
        lines,
        vec!["/r/a.txt", "/r/b.txt", "skipped file: /r/sub/c.txt"]
    );
}

#[test]
fn scan_without_bom_excludes_marked_file() {
    let tree = sample_tree();
    let mut cfg = utf8_config();
    cfg.set_recursive(true);
    cfg.set_bom_policy(EBomPolicy::EWithoutBom);
    let lines = ListFiles::run(&cfg, &tree);
    assert_eq!(lines, vec!["/r/a.txt"]);
    cfg.set_list_skipped(true);
    let lines = ListFiles::run(&cfg, &tree);
    assert_eq!(
        lines,
        vec![
            "/r/a.txt",
            "skipped file: /r/b.txt",
            "skipped file: /r/sub/c.txt"
        ]
    );
}

#[test]
fn scan_with_bom_keeps_only_marked_file() {
    let tree = sample_tree();
    let mut cfg = utf8_config();
    cfg.set_recursive(true);
    cfg.set_bom_policy(EBomPolicy::EWithBom);
    let lines = ListFiles::run(&cfg, &tree);
    assert_eq!(lines, vec!["/r/b.txt"]);
}

#[test]
fn nonrecursive_scan_ignores_subdirectories() {
    let tree = sample_tree();
    let mut cfg = utf8_config();
    cfg.set_list_skipped(true);
    let lines = ListFiles::run(&cfg, &tree);
    // c.txt is never visited, and directories earn no line.
    assert_eq!(lines, vec!["/r/a.txt", "/r/b.txt"]);
}

#[test]
fn mask_excludes_files_before_any_decode() {
    // notes.md would be reported as skipped if it were ever judged; the mask
    // drops it before its content is looked at.
    let tree = DirTree {
        nodes: vec![
            node(0, "/r", true, b""),
            node(0, "/r/a.txt", false, b"fine"),
            node(0, "/r/notes.md", false, &[0xFF, 0xFF]),
        ],
    };
    let mut cfg = utf8_config();
    cfg.set_recursive(true);
    cfg.set_list_skipped(true);
    cfg.set_regex("(.*)\\.txt$").unwrap();
    let lines = ListFiles::run(&cfg, &tree);
    assert_eq!(lines, vec!["/r/a.txt"]);
    // The filter alone already excludes it, so no read is ever requested.
    assert!(cfg.filter(&Entry {
        path: "/r/notes.md".to_string(),
        is_dir: false,
    }));
    assert!(!cfg.filter(&Entry {
        path: "/r/a.txt".to_string(),
        is_dir: false,
    }));
}

#[test]
fn directories_are_always_filtered_out() {
    let cfg = utf8_config();
    assert!(cfg.filter(&Entry {
        path: "/anywhere".to_string(),
        is_dir: true,
    }));
    assert!(!cfg.filter(&Entry {
        path: "/anywhere/file".to_string(),
        is_dir: false,
    }));
}

#[test]
fn empty_files_produce_no_verdict() {
    let tree = DirTree {
        nodes: vec![
            node(0, "/r", true, b""),
            node(0, "/r/empty.txt", false, b""),
            node(0, "/r/full.txt", false, b"text"),
        ],
    };
    let mut cfg = utf8_config();
    cfg.set_recursive(true);
    cfg.set_list_skipped(true);
    let lines = ListFiles::run(&cfg, &tree);
    assert_eq!(lines, vec!["/r/full.txt"]);
}

#[test]
fn set_decoder_rejects_unknown_label_and_keeps_old() {
    let mut cfg = utf8_config();
    let err = cfg.set_decoder("bogus-encoding").unwrap_err();
    assert_eq!(err.message(), "Failed to parse encoding param bogus-encoding");
    // The old target still drives the scan.
    let tree = DirTree {
        nodes: vec![node(0, "/f.txt", false, b"ok")],
    };
    assert_eq!(ListFiles::run(&cfg, &tree), vec!["/f.txt"]);
    cfg.set_decoder("cp1251").unwrap();
}

#[test]
fn set_regex_rejects_invalid_pattern() {
    let mut cfg = utf8_config();
    let err = cfg.set_regex("(unclosed").unwrap_err();
    assert_eq!(err.message(), "Failed to parse regex mask");
    cfg.set_regex(".*").unwrap();
}

#[test]
fn set_folder_and_flags_are_kept() {
    let mut cfg = utf8_config();
    cfg.set_folder("/somewhere");
    assert_eq!(cfg.folder(), "/somewhere");
    assert!(!cfg.recursive());
    cfg.set_recursive(true);
    assert!(cfg.recursive());
    assert!(!cfg.list_skipped());
    cfg.set_list_skipped(true);
    assert!(cfg.list_skipped());
}

#[test]
fn create_walker_honours_recursion_flag() {
    let mut cfg = utf8_config();
    cfg.set_recursive(true);
    let mut ex = cfg.create_walker(Entry {
        path: "/r".to_string(),
        is_dir: true,
    });
    assert_eq!(ex.next_folder(), "/r");
    ex.push_listing(vec![Entry {
        path: "/r/s".to_string(),
        is_dir: true,
    }]);
    let _ = ex.next();
    // Recursive: the child directory is pending.
    assert!(!ex.eof());
}
