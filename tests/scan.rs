use metatron::render::get_hierarchy;
use metatron::scan::list_files;
use metatron::tree::{DirTree, Entry};

fn file(dir: &str, name: &str, size: u64) -> Entry {
    Entry::File { name: name.to_string(), path: format!("{}/{}", dir, name), size }
}

fn dir(parent: &str, name: &str, entries: Vec<Entry>) -> DirTree {
    DirTree { name: name.to_string(), path: format!("{}/{}", parent, name), entries }
}

fn root(entries: Vec<Entry>) -> DirTree {
    DirTree { name: "root".to_string(), path: "/tmp/root".to_string(), entries }
}

#[test]
fn list_files_folders_only_omits_files() {
    let r = "/tmp/root";
    let a = dir(r, "a", vec![file("/tmp/root/a", "nested.txt", 5)]);
    let b = dir(r, "b", vec![]);
    let tree = root(vec![Entry::Dir(a), Entry::Dir(b), file(r, "root.txt", 5)]);
    let result = list_files(&tree, "".to_string(), true, "".to_string(), Vec::new());
    assert!(result.success);
    assert!(!result.files.is_empty());
    assert!(result.files.iter().all(|entry| entry.size == 0));
    let names: Vec<&str> = result.files.iter().map(|f| f.name.as_str()).collect();
    assert_eq!(names, vec!["a", "b"]);
    assert_eq!(result.files[0].path, "/tmp/root/a");
}

#[test]
fn list_files_respects_extension_filter() {
    let r = "/tmp/root";
    let tree = root(vec![file(r, "a.txt", 5), file(r, "b.md", 5), file(r, "c.png", 5)]);
    let result = list_files(&tree, ".md".to_string(), false, "".to_string(), Vec::new());
    assert!(result.success);
    assert_eq!(result.files.len(), 1);
    assert_eq!(result.files[0].name, "b.md");
    assert_eq!(result.files[0].path, "/tmp/root/b.md");
    assert_eq!(result.files[0].size, 5);
    assert!(result.error.is_none());
}

#[test]
fn list_files_ignores_extensions() {
    let r = "/tmp/root";
    let tree = root(vec![file(r, "a.log", 5), file(r, "b.txt", 5)]);
    let result = list_files(&tree, "".to_string(), false, ".log".to_string(), Vec::new());
    assert!(result.success);
    assert_eq!(result.files.len(), 1);
    assert_eq!(result.files[0].name, "b.txt");
}

#[test]
fn list_files_keeps_read_order_and_descends_depth_first() {
    let r = "/tmp/root";
    let sub = dir(r, "sub", vec![file("/tmp/root/sub", "y.txt", 2)]);
    let tree = root(vec![file(r, "z.txt", 1), Entry::Dir(sub), file(r, "a.txt", 3)]);
    let result = list_files(&tree, "".to_string(), false, "".to_string(), Vec::new());
    let names: Vec<&str> = result.files.iter().map(|f| f.name.as_str()).collect();
    assert_eq!(names, vec!["z.txt", "y.txt", "a.txt"]);
    assert_eq!(result.files[1].size, 2);
}

#[test]
fn list_files_skips_ignored_folders_and_an_ignored_root() {
    let r = "/tmp/root";
    let skip = dir(r, "skipme", vec![file("/tmp/root/skipme", "a.txt", 1)]);
    let keep = dir(r, "keep", vec![file("/tmp/root/keep", "b.txt", 1)]);
    let tree = root(vec![Entry::Dir(skip), Entry::Dir(keep)]);
    let result = list_files(
        &tree,
        "".to_string(),
        false,
        "".to_string(),
        vec!["  ".to_string(), "SKIPME".to_string()],
    );
    let names: Vec<&str> = result.files.iter().map(|f| f.name.as_str()).collect();
    assert_eq!(names, vec!["b.txt"]);
    let all = list_files(&tree, "".to_string(), false, "".to_string(), vec!["/tmp/root".to_string()]);
    assert!(all.success);
    assert!(all.files.is_empty());
}

#[test]
fn hierarchy_folders_only_has_no_files() {
    let r = "/tmp/root";
    let tree = root(vec![Entry::Dir(dir(r, "folder", vec![])), file(r, "file.txt", 5)]);
    let result = get_hierarchy(&tree, "".to_string(), true, "".to_string(), Vec::new());
    assert!(result.success);
    assert!(!result.hierarchy.contains("📄"));
    assert_eq!(result.hierarchy, "📁 root\n└── 📁 folder\n");
}

#[test]
fn hierarchy_skips_ignored_folder_by_name() {
    let r = "/tmp/root";
    let skip = dir(r, "skipme", vec![file("/tmp/root/skipme", "a.txt", 5)]);
    let keep = dir(r, "keep", vec![file("/tmp/root/keep", "b.txt", 5)]);
    let tree = root(vec![Entry::Dir(skip), Entry::Dir(keep)]);
    let result = get_hierarchy(&tree, "".to_string(), false, "".to_string(), vec!["skipme".to_string()]);
    assert!(result.success);
    assert!(!result.hierarchy.contains("skipme"));
    assert!(result.hierarchy.contains("keep"));
}

#[test]
fn hierarchy_skips_ignored_folder_by_path() {
    let r = "/tmp/root";
    let child = dir("/tmp/root/skipme", "child", vec![file("/tmp/root/skipme/child", "a.txt", 5)]);
    let skip = dir(r, "skipme", vec![Entry::Dir(child)]);
    let keep = dir(r, "keep", vec![file("/tmp/root/keep", "b.txt", 5)]);
    let tree = root(vec![Entry::Dir(skip), Entry::Dir(keep)]);
    let result = get_hierarchy(
        &tree,
        "".to_string(),
        false,
        "".to_string(),
        vec!["/tmp/root/skipme".to_string()],
    );
    assert!(result.success);
    assert!(!result.hierarchy.contains("skipme"));
    assert!(result.hierarchy.contains("keep"));
}

#[test]
fn hierarchy_sorts_and_draws_connectors() {
    let r = "/tmp/root";
    let beta = dir(r, "beta", vec![file("/tmp/root/beta", "x.txt", 1), file("/tmp/root/beta", "w.txt", 1)]);
    let alpha = dir(r, "alpha", vec![Entry::Dir(dir("/tmp/root/alpha", "deep", vec![]))]);
    let tree = root(vec![file(r, "b.txt", 1), Entry::Dir(beta), file(r, "a.txt", 1), Entry::Dir(alpha)]);
    let result = get_hierarchy(&tree, "".to_string(), false, "".to_string(), Vec::new());
    let expected = "📁 root\n\
├── 📁 alpha\n\
│   └── 📁 deep\n\
├── 📁 beta\n\
│   ├── 📄 w.txt\n\
│   └── 📄 x.txt\n\
├── 📄 a.txt\n\
└── 📄 b.txt\n";
    assert_eq!(result.hierarchy, expected);
}

#[test]
fn hierarchy_prunes_folders_without_matches_under_an_allow_list() {
    let r = "/tmp/root";
    let docs = dir(r, "docs", vec![file("/tmp/root/docs", "a.md", 1)]);
    let img = dir(r, "img", vec![file("/tmp/root/img", "c.png", 1)]);
    let empty = dir(r, "empty", vec![]);
    let tree = root(vec![Entry::Dir(img), Entry::Dir(docs), Entry::Dir(empty), file(r, "b.txt", 1)]);
    let result = get_hierarchy(&tree, "md".to_string(), false, "".to_string(), Vec::new());
    assert_eq!(result.hierarchy, "📁 root\n└── 📁 docs\n    └── 📄 a.md\n");
    let open = get_hierarchy(&tree, "".to_string(), false, "png".to_string(), Vec::new());
    assert_eq!(
        open.hierarchy,
        "📁 root\n├── 📁 docs\n│   └── 📄 a.md\n├── 📁 empty\n├── 📁 img\n└── 📄 b.txt\n"
    );
}

#[test]
fn hierarchy_root_without_base_name_shows_its_path() {
    let tree = DirTree { name: "".to_string(), path: "/".to_string(), entries: vec![] };
    let result = get_hierarchy(&tree, "".to_string(), false, "".to_string(), Vec::new());
    assert_eq!(result.hierarchy, "📁 /\n");
    assert!(result.error.is_none());
}

#[test]
fn hierarchy_last_shown_line_closes_its_level_after_pruning() {
    let r = "/tmp/root";
    let inner = dir("/tmp/root/a", "keep", vec![file("/tmp/root/a/keep", "x.md", 1)]);
    let drop = dir("/tmp/root/a", "zz", vec![file("/tmp/root/a/zz", "y.txt", 1)]);
    let a = dir(r, "a", vec![Entry::Dir(drop), Entry::Dir(inner)]);
    let b = dir(r, "b", vec![file("/tmp/root/b", "c.md", 1)]);
    let z = dir(r, "z", vec![file("/tmp/root/z", "d.png", 1)]);
    let tree = root(vec![Entry::Dir(z), Entry::Dir(b), Entry::Dir(a)]);
    let result = get_hierarchy(&tree, ".md".to_string(), false, "".to_string(), Vec::new());
    let expected = [
        "📁 root\n",
        "├── 📁 a\n",
        "│   └── 📁 keep\n",
        "│       └── 📄 x.md\n",
        "└── 📁 b\n",
        "    └── 📄 c.md\n",
    ]
    .concat();
    assert_eq!(result.hierarchy, expected);
}

#[test]
fn hierarchy_excludes_alike_by_name_and_by_path() {
    let r = "/tmp/root";
    let make = || {
        let skip = dir(r, "skipme", vec![Entry::Dir(dir("/tmp/root/skipme", "child", vec![]))]);
        let keep = dir(r, "keep", vec![file("/tmp/root/keep", "b.txt", 5)]);
        root(vec![Entry::Dir(skip), Entry::Dir(keep)])
    };
    let by_name = get_hierarchy(&make(), "".to_string(), false, "".to_string(), vec!["skipme".to_string()]);
    let by_path =
        get_hierarchy(&make(), "".to_string(), false, "".to_string(), vec!["/tmp/root/skipme".to_string()]);
    assert_eq!(by_name.hierarchy, by_path.hierarchy);
    assert_eq!(by_name.hierarchy, "📁 root\n└── 📁 keep\n    └── 📄 b.txt\n");
}
