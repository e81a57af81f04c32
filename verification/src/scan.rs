//! The scan: walking a subtree, filtering entries, and judging each kept
//! file's content against the target encoding.
//!
//! A [`ScanConfig`] is built once per invocation and never mutated afterwards.
//! Filtering is cheap and happens before any content is read or decoded:
//! directories and files whose path fails the mask are dropped without a
//! decode attempt. An empty file carries no encoding evidence, so it produces
//! no verdict at all and is never reported.
//!
//! [`ListFiles::run`] performs the whole scan over an in-memory tree. Against
//! the real filesystem the caller drives the same walker and decision
//! functions, reading directories and files itself.

use vstd::prelude::*;
use vstd::string::StringExecFns;

use crate::codec::{canonical_name, in_registry, EncodingDescriptor};
use crate::detect::{check_conformance, spec_matches, EBomPolicy, Verdict};
use crate::errors::{ErrorStr, ErrorString};
use crate::explorer::{
    entry_of, path_views, usize_ints, walk_indices, walk_tree, DirTree, Entry, EntryView,
    FileExplorer, NodeView,
};
use crate::mask::{mask_matches, pattern_ok, PathMask};

verus! {

/// The mathematical value of a [`ScanConfig`].
pub ghost struct ConfigView {
    pub folder: Seq<char>,
    pub decoder_name: Seq<char>,
    pub bom_policy: EBomPolicy,
    pub mask: Option<Seq<char>>,
    pub recursive: bool,
    pub list_skipped: bool,
}

/// What one scan does: the root folder, the target encoding, the byte-order
/// mark policy, an optional path mask, whether to descend into directories,
/// and whether to report non-conforming files.
pub struct ScanConfig {
    folder: String,
    decoder: EncodingDescriptor,
    bom_policy: EBomPolicy,
    mask: Option<PathMask>,
    recursive: bool,
    list_skipped: bool,
}

impl View for ScanConfig {
    type V = ConfigView;

    closed spec fn view(&self) -> ConfigView {
        ConfigView {
            folder: self.folder@,
            decoder_name: self.decoder.name_view(),
            bom_policy: self.bom_policy,
            mask: match self.mask {
                Some(m) => Some(m.pattern_view()),
                None => None,
            },
            recursive: self.recursive,
            list_skipped: self.list_skipped,
        }
    }
}

/// Whether a mask admits a path; no mask admits everything.
pub open spec fn mask_allows(mask: Option<Seq<char>>, path: Seq<char>) -> bool {
    match mask {
        None => true,
        Some(pattern) => mask_matches(pattern, path),
    }
}

/// Whether the filter excludes an entry: directories are structural, not
/// content-bearing, and a file is excluded when its full path fails the mask.
pub open spec fn spec_filter(cfg: ConfigView, e: EntryView) -> bool {
    e.is_dir || !mask_allows(cfg.mask, e.path)
}

/// The report line for a kept file with the given path and content: the path
/// itself for a conforming file, an annotated line for a non-conforming one
/// when skipped files are reported, and nothing otherwise. An empty file
/// produces no verdict and no line.
pub open spec fn content_line(cfg: ConfigView, path: Seq<char>, data: Seq<u8>) -> Option<
    Seq<char>,
> {
    if data.len() == 0 {
        None
    } else if spec_matches(data, cfg.decoder_name, cfg.bom_policy) is Match {
        Some(path)
    } else if cfg.list_skipped {
        Some("skipped file: "@ + path)
    } else {
        None
    }
}

impl ScanConfig {
    /// A configuration that scans the given target encoding with default
    /// settings: no folder yet, byte-order mark ignored, no mask, not
    /// recursive, skipped files unreported.
    pub fn new(decoder: EncodingDescriptor) -> (r: ScanConfig)
        ensures
            r@.folder =~= Seq::<char>::empty(),
            r@.decoder_name == decoder.name_view(),
            r@.bom_policy == EBomPolicy::EIgnore,
            r@.mask is None,
            !r@.recursive,
            !r@.list_skipped,
    {
        ScanConfig {
            folder: String::new(),
            decoder,
            bom_policy: EBomPolicy::EIgnore,
            mask: None,
            recursive: false,
            list_skipped: false,
        }
    }

    /// The root folder of the scan.
    pub fn folder(&self) -> (r: &String)
        ensures
            r@ == self@.folder,
    {
        &self.folder
    }

    /// Whether the scan descends into child directories.
    pub fn recursive(&self) -> (r: bool)
        ensures
            r == self@.recursive,
    {
        self.recursive
    }

    /// Whether non-conforming files are reported.
    pub fn list_skipped(&self) -> (r: bool)
        ensures
            r == self@.list_skipped,
    {
        self.list_skipped
    }

    /// Sets the root folder.
    pub fn set_folder(&mut self, folder: &str)
        ensures
            final(self)@ == (ConfigView { folder: folder@, ..old(self)@ }),
    {
        self.folder = String::from_str(folder);
    }

    /// Resolves `decoder` against the registry and makes it the target
    /// encoding. Fails exactly on labels no registry encoding answers to, and
    /// then leaves the configuration unchanged.
    pub fn set_decoder(&mut self, decoder: &str) -> (r: Result<(), Box<ErrorString>>)
        ensures
            r is Ok <==> (canonical_name(decoder@) is Some && in_registry(
                canonical_name(decoder@)->0,
            )),
            r is Ok ==> final(self)@ == (ConfigView {
                decoder_name: canonical_name(decoder@)->0,
                ..old(self)@
            }),
            r is Err ==> final(self)@ == old(self)@ && r->Err_0.msg_view()
                == "Failed to parse encoding param "@ + decoder@,
    {
        match EncodingDescriptor::lookup(decoder) {
            Ok(d) => {
                self.decoder = d;
                Ok(())
            },
            Err(e) => Err(e),
        }
    }

    /// Compiles `mask` and makes it the path mask. Fails exactly on invalid
    /// patterns, and then leaves the configuration unchanged.
    pub fn set_regex(&mut self, mask: &str) -> (r: Result<(), Box<ErrorStr>>)
        ensures
            r is Ok <==> pattern_ok(mask@),
            r is Ok ==> final(self)@ == (ConfigView { mask: Some(mask@), ..old(self)@ }),
            r is Err ==> final(self)@ == old(self)@ && r->Err_0.msg_view()
                == "Failed to parse regex mask"@,
    {
        match PathMask::new(mask) {
            Some(m) => {
                self.mask = Some(m);
                Ok(())
            },
            None => Err(ErrorStr::new("Failed to parse regex mask")),
        }
    }

    /// Sets the byte-order-mark policy.
    pub fn set_bom_policy(&mut self, bom_policy: EBomPolicy)
        ensures
            final(self)@ == (ConfigView { bom_policy: bom_policy, ..old(self)@ }),
    {
        self.bom_policy = bom_policy;
    }

    /// Sets whether the scan descends into child directories.
    pub fn set_recursive(&mut self, recursive: bool)
        ensures
            final(self)@ == (ConfigView { recursive: recursive, ..old(self)@ }),
    {
        self.recursive = recursive;
    }

    /// Sets whether non-conforming files are reported.
    pub fn set_list_skipped(&mut self, list_skipped: bool)
        ensures
            final(self)@ == (ConfigView { list_skipped: list_skipped, ..old(self)@ }),
    {
        self.list_skipped = list_skipped;
    }

    /// Seeds a walker at `root` honouring this configuration's recursion flag.
    pub fn create_walker(&self, root: Entry) -> (r: FileExplorer)
        ensures
            r@.recursive == self@.recursive,
            root@.is_dir ==> r@.folders =~= seq![root@.path] && r@.files =~= Seq::<
                EntryView,
            >::empty(),
            !root@.is_dir ==> r@.folders =~= Seq::<Seq<char>>::empty() && r@.files =~= seq![root@],
    {
        FileExplorer::create(root, self.recursive)
    }

    /// Whether the filter excludes `entry` from encoding-checking.
    pub fn filter(&self, entry: &Entry) -> (r: bool)
        ensures
            r == spec_filter(self@, entry@),
    {
        if entry.is_dir {
            return true;
        }
        match &self.mask {
            None => false,
            Some(m) => !m.is_match(entry.path.as_str()),
        }
    }

    /// The conformance verdict for a kept file's content under this
    /// configuration's target encoding and byte-order-mark policy.
    pub fn check_encoding(&self, data: &Vec<u8>) -> (v: Verdict)
        ensures
            v == spec_matches(data@, self@.decoder_name, self@.bom_policy),
    {
        check_conformance(data, &self.decoder, &self.bom_policy)
    }

    /// The report line for a kept file, if any: see [`content_line`].
    pub fn process_content(&self, path: &String, data: &Vec<u8>) -> (r: Option<String>)
        ensures
            r is Some <==> content_line(self@, path@, data@) is Some,
            r is Some ==> r->0@ == content_line(self@, path@, data@)->0,
    {
        if data.len() == 0 {
            return None;
        }
        match self.check_encoding(data) {
            Verdict::Match => Some(path.clone()),
            _ => {
                if self.list_skipped {
                    Some(String::from_str("skipped file: ").concat(path.as_str()))
                } else {
                    None
                }
            },
        }
    }
}

/// The report line, if any, for node `j` of a tree: nothing for an entry the
/// filter excludes, otherwise the line its content earns.
pub open spec fn line_for(t: Seq<NodeView>, cfg: ConfigView, j: int) -> Option<Seq<char>> {
    if spec_filter(cfg, entry_of(t, j)) {
        None
    } else {
        content_line(cfg, t[j].path, t[j].content)
    }
}

/// The report lines for the nodes `idxs` of a tree, in order.
pub open spec fn scan_lines(t: Seq<NodeView>, cfg: ConfigView, idxs: Seq<int>) -> Seq<Seq<char>>
    decreases idxs.len(),
{
    if idxs.len() == 0 {
        Seq::empty()
    } else {
        let rest = scan_lines(t, cfg, idxs.drop_last());
        match line_for(t, cfg, idxs.last()) {
            Some(l) => rest.push(l),
            None => rest,
        }
    }
}

/// The scan command: walk, filter, read, judge, report.
pub struct ListFiles;

impl ListFiles {
    /// Scans an in-memory tree: walks it breadth-first under the
    /// configuration's recursion flag, filters each yielded entry before its
    /// content is looked at, and returns the report lines in yield order.
    pub fn run(cfg: &ScanConfig, tree: &DirTree) -> (r: Vec<String>)
        requires
            tree.well_formed(),
        ensures
            path_views(r@) == scan_lines(tree@, cfg@, walk_indices(tree@, cfg@.recursive)),
    {
        let order = walk_tree(tree, cfg.recursive);
        let ghost w = walk_indices(tree@, cfg@.recursive);
        proof {
            assert(usize_ints(order@) == w);
        }
        let mut out: Vec<String> = Vec::new();
        let mut k: usize = 0;
        while k < order.len()
            invariant
                tree.well_formed(),
                usize_ints(order@) == w,
                k <= order@.len(),
                forall|m: int| 0 <= m < order@.len() ==> #[trigger] order@[m] < tree@.len(),
                tree@.len() == tree.nodes@.len(),
                path_views(out@) == scan_lines(tree@, cfg@, w.take(k as int)),
            decreases order@.len() - k,
        {
            let ghost prev = out@;
            let idx = order[k];
            proof {
                assert(w[k as int] == idx as int);
                assert(w.take(k as int + 1).drop_last() =~= w.take(k as int));
                assert(tree@[idx as int] == tree.nodes@[idx as int]@);
            }
            let node = &tree.nodes[idx];
            let entry = Entry { path: node.path.clone(), is_dir: node.is_dir };
            proof {
                assert(entry@ == entry_of(tree@, idx as int));
            }
            if !cfg.filter(&entry) {
                match cfg.process_content(&node.path, &node.content) {
                    Some(line) => {
                        out.push(line);
                        proof {
                            assert(path_views(out@) =~= path_views(prev).push(
                                line_for(tree@, cfg@, idx as int)->0,
                            ));
                        }
                    },
                    None => {},
                }
            }
            k = k + 1;
        }
        proof {
            assert(w.take(w.len() as int) =~= w);
        }
        out
    }
}

} // verus!
