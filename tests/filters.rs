use metatron::filters::{
    folder_entry_excludes, has_dot_extension, is_ignored_file, is_ignored_folder, matches_extension,
    normalize_path_str, parse_extensions,
};

#[test]
fn parse_extensions_splits_and_normalizes() {
    let result = parse_extensions(" .RS, .Txt  md ");
    assert_eq!(result, vec!["rs", "txt", "md"]);
}

#[test]
fn matches_extension_allows_any_when_empty() {
    let extensions: Vec<String> = Vec::new();
    assert!(matches_extension("file.txt", &extensions));
}

#[test]
fn matches_extension_respects_filters() {
    let extensions = vec!["txt".to_string(), "md".to_string()];
    assert!(matches_extension("notes.TXT", &extensions));
    assert!(matches_extension("readme.md", &extensions));
    assert!(!matches_extension("image.png", &extensions));
}

#[test]
fn parse_extensions_strips_every_leading_dot_and_drops_empty_pieces() {
    assert_eq!(parse_extensions("..md,,  , \t..Log\t"), vec!["md", "log"]);
    assert_eq!(parse_extensions(""), Vec::<String>::new());
    assert_eq!(parse_extensions(" , . "), Vec::<String>::new());
    assert_eq!(parse_extensions("tar.gz"), vec!["tar.gz"]);
}

#[test]
fn parse_extensions_of_its_own_rendering_is_unchanged() {
    let first = parse_extensions("RS, .txt md");
    let rendered = first.iter().map(|e| format!(".{}", e)).collect::<Vec<_>>().join(",");
    assert_eq!(parse_extensions(&rendered), first);
}

#[test]
fn empty_lists_allow_everything_and_ignore_nothing() {
    let none: Vec<String> = Vec::new();
    assert!(matches_extension("", &none));
    assert!(matches_extension("no_extension", &none));
    assert!(!is_ignored_file("a.log", &none));
    assert!(!is_ignored_file("", &none));
}

#[test]
fn matching_ignores_case() {
    let exts = vec!["txt".to_string()];
    assert_eq!(matches_extension("A.TXT", &exts), matches_extension("a.txt", &exts));
    assert!(matches_extension("A.TXT", &exts));
}

#[test]
fn matching_is_by_suffix() {
    let exts = vec!["ar.gz".to_string()];
    assert!(matches_extension("archive.tar.gz", &exts) == false);
    assert!(matches_extension("x.ar.gz", &exts));
    let gz = vec!["gz".to_string()];
    assert!(matches_extension("archive.tar.gz", &gz));
    assert!(!matches_extension("gz", &gz));
    assert!(!matches_extension(".gzip", &gz));
}

#[test]
fn ignored_file_uses_suffix_after_lowercasing() {
    let ignored = vec!["log".to_string()];
    assert!(is_ignored_file("server.LOG", &ignored));
    assert!(!is_ignored_file("catalog", &ignored));
}

#[test]
fn normalize_path_unifies_separators_and_case() {
    assert_eq!(normalize_path_str("  C:/Users/Me/Projects// "), "c:\\users\\me\\projects");
    assert_eq!(normalize_path_str("/tmp/Root/"), "\\tmp\\root");
    assert_eq!(normalize_path_str(""), "");
    assert_eq!(normalize_path_str("\\/"), "");
}

#[test]
fn normalize_path_is_stable_on_its_output() {
    for s in ["  C:/Users/Me// ", "/tmp/x", "Node_Modules", "a/b\\c/"] {
        let once = normalize_path_str(s);
        assert_eq!(normalize_path_str(&once), once);
    }
}

#[test]
fn normalize_path_white_space_before_a_trailing_separator_survives_once() {
    let once = normalize_path_str("a \\");
    assert_eq!(once, "a ");
    assert_eq!(normalize_path_str(&once), "a");
}

#[test]
fn ignored_folder_by_bare_name_any_case() {
    let ignored = vec!["Node_Modules".to_string()];
    assert!(is_ignored_folder("node_modules", "/p/x/node_modules", &ignored));
    assert!(is_ignored_folder("NODE_MODULES", "/q/NODE_MODULES", &ignored));
    assert!(!is_ignored_folder("src", "/p/node_modules/src", &ignored));
}

#[test]
fn ignored_folder_by_path_and_below() {
    let ignored = vec!["/p/Build/".to_string()];
    assert!(is_ignored_folder("build", "/p/build", &ignored));
    assert!(is_ignored_folder("out", "/p/build/out", &ignored));
    assert!(!is_ignored_folder("builder", "/p/builder", &ignored));
    assert!(!is_ignored_folder("build", "/q/build", &ignored));
}

#[test]
fn ignored_folder_drive_marker_means_path() {
    let ignored = vec!["c:".to_string()];
    assert!(is_ignored_folder("x", "C:\\x", &ignored));
    assert!(!is_ignored_folder("c:", "/d/e", &ignored));
    let none: Vec<String> = Vec::new();
    assert!(!is_ignored_folder("", "", &none));
}

#[test]
fn dot_extension_on_lowered_names() {
    let exts = vec!["txt".to_string(), "tar.gz".to_string()];
    assert!(has_dot_extension("notes.txt", &exts));
    assert!(has_dot_extension("a.tar.gz", &exts));
    assert!(!has_dot_extension("tar.gz", &exts));
    assert!(!has_dot_extension("notes.TXT", &exts));
    assert!(!has_dot_extension("notes.txt", &Vec::new()));
}

#[test]
fn folder_entry_by_name_and_by_path_agree_for_a_direct_child() {
    let path = normalize_path_str("/tmp/root/skipme");
    assert_eq!(path, "\\tmp\\root\\skipme");
    assert!(folder_entry_excludes("skipme", &path, "skipme"));
    assert!(folder_entry_excludes("skipme", &path, &normalize_path_str("/tmp/root/skipme/")));
    assert!(folder_entry_excludes("child", "\\tmp\\root\\skipme\\child", "\\tmp\\root\\skipme"));
    assert!(!folder_entry_excludes("skipmenot", "\\tmp\\root\\skipmenot", "\\tmp\\root\\skipme"));
    assert!(!folder_entry_excludes("keep", "\\tmp\\root\\keep", "skipme"));
    assert!(folder_entry_excludes("x", "d:\\x", "d:"));
    assert!(folder_entry_excludes("x", "d:\\x", "d:\\x"));
}
