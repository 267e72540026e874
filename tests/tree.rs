use fs_tools::filter::{ends_with, should_include_file, should_include_item, should_skip_entry};
use fs_tools::item::{update_has_terminal_file, FsError, Item};
use fs_tools::options::{ExclusionPattern, FolderStructureOptions, FolderStructureOptionsBuilder};
use fs_tools::render::render_tree;
use fs_tools::sort::{compare_names, sort_items, sort_siblings};
use fs_tools::traverse::{get_folder_structure, get_path_name, DiskEntry};
use std::cmp::Ordering;

fn name(s: &str) -> Option<String> {
    Some(s.to_string())
}

fn file(s: &str) -> DiskEntry {
    DiskEntry::File(name(s))
}

fn dir(s: &str, children: Vec<DiskEntry>) -> DiskEntry {
    DiskEntry::Dir(name(s), children)
}

fn strings(v: &[&str]) -> Vec<String> {
    v.iter().map(|s| s.to_string()).collect()
}

fn options(only: &[&str], exclude: &[&str], patterns: &[&str], show_empty: bool) -> FolderStructureOptions {
    let mut b = FolderStructureOptionsBuilder::default();
    b.include_extension_only(strings(only));
    b.exclude_extension(strings(exclude));
    b.exclude_by_filter(patterns.iter().map(|p| ExclusionPattern::new(p).unwrap()).collect());
    b.show_empty_folder(show_empty);
    b.build().unwrap()
}

fn lines(root: &DiskEntry, current_dir: bool, o: &FolderStructureOptions) -> Vec<String> {
    let tree = get_folder_structure(root, current_dir, o).unwrap();
    render_tree(&tree, o)
}

#[test]
fn both_extension_lists_refused() {
    let mut b = FolderStructureOptionsBuilder::default();
    b.include_extension_only(strings(&["rs"]));
    b.exclude_extension(strings(&["md"]));
    assert!(b.validate().is_err());
    assert_eq!(
        b.build().err(),
        Some("Cannot specify both exclude_extension and include_extension_only".to_string())
    );
}

#[test]
fn one_extension_list_accepted() {
    let mut b = FolderStructureOptionsBuilder::default();
    b.include_extension_only(strings(&["rs"]));
    b.exclude_extension(Vec::new());
    assert!(b.validate().is_ok());
    let o = b.build().unwrap();
    assert_eq!(o.include_extension_only(), &strings(&["rs"]));
    assert!(o.exclude_extension().is_empty());
    assert!(!o.show_empty_folder());
}

#[test]
fn default_builder_accepts_everything() {
    let o = FolderStructureOptionsBuilder::default().build().unwrap();
    assert!(should_include_file("a.txt", &o));
    assert!(should_include_item("anything", &o));
}

#[test]
fn extension_filters() {
    let inc = options(&["rs"], &[], &[], false);
    assert!(should_include_file("main.rs", &inc));
    assert!(!should_include_file("README.md", &inc));
    let exc = options(&[], &["md", "txt"], &[], false);
    assert!(should_include_file("main.rs", &exc));
    assert!(!should_include_file("README.md", &exc));
    assert!(!should_include_file("notes.txt", &exc));
}

#[test]
fn suffix_check() {
    assert!(ends_with("main.rs", "rs"));
    assert!(ends_with("main.rs", ""));
    assert!(!ends_with("rs", "main.rs"));
    assert!(!ends_with("main.rs", "md"));
    assert!(ends_with("héllo", "llo"));
}

#[test]
fn pattern_filter() {
    let o = options(&[], &[], &["^target$", "tmp"], false);
    assert!(!should_include_item("target", &o));
    assert!(should_include_item("targets", &o));
    assert!(!should_include_item("my_tmp_file", &o));
    assert!(should_include_item("src", &o));
}

#[test]
fn invalid_pattern_refused() {
    let r = ExclusionPattern::new("foo(bar");
    match r {
        Ok(_) => panic!("an unclosed group compiled"),
        Err(e) => assert!(!e.message.is_empty()),
    }
    let p = ExclusionPattern::new("a+b").unwrap();
    assert_eq!(p.as_str(), "a+b");
    assert!(p.is_match("xaab"));
    assert!(!p.is_match("b"));
}

#[test]
fn hidden_entries_skipped() {
    let o = options(&[], &[], &[], true);
    assert!(should_skip_entry(&name(".git"), &o));
    assert!(should_skip_entry(&None, &o));
    assert!(!should_skip_entry(&name("src"), &o));
    let tree = dir("r", vec![dir(".git", vec![file("config")]), file(".env"), file("a.txt")]);
    assert_eq!(lines(&tree, false, &o), strings(&["r", "    └── a.txt"]));
}

#[test]
fn names_compare_lexicographically() {
    assert_eq!(compare_names("a", "b"), Ordering::Less);
    assert_eq!(compare_names("b", "a"), Ordering::Greater);
    assert_eq!(compare_names("ab", "a"), Ordering::Greater);
    assert_eq!(compare_names("B", "a"), Ordering::Less);
    assert_eq!(compare_names("same", "same"), Ordering::Equal);
}

#[test]
fn folders_sort_before_files() {
    let f = Item::File("a".to_string());
    let d = Item::Folder("z".to_string(), Vec::new(), None);
    assert_eq!(sort_items(&d, &f), Ordering::Less);
    assert_eq!(sort_items(&f, &d), Ordering::Greater);
    let sorted = sort_siblings(vec![
        Item::File("b.txt".to_string()),
        Item::Folder("src".to_string(), Vec::new(), None),
        Item::File("a.txt".to_string()),
        Item::Folder("docs".to_string(), Vec::new(), None),
    ]);
    assert_eq!(
        sorted,
        vec![
            Item::Folder("docs".to_string(), Vec::new(), None),
            Item::Folder("src".to_string(), Vec::new(), None),
            Item::File("a.txt".to_string()),
            Item::File("b.txt".to_string()),
        ]
    );
}

#[test]
fn rendered_sibling_order() {
    let o = options(&[], &[], &[], false);
    let tree = dir(
        "r",
        vec![file("b.txt"), dir("src", vec![file("lib.rs")]), file("a.txt"), dir("docs", vec![file("x.md")])],
    );
    assert_eq!(
        lines(&tree, false, &o),
        strings(&[
            "r",
            "    ├── docs/",
            "    │   └── x.md",
            "    ├── src/",
            "    │   └── lib.rs",
            "    ├── a.txt",
            "    └── b.txt",
        ])
    );
}

#[test]
fn annotation_marks_nested_file() {
    let mut item = Item::Folder(
        "a".to_string(),
        vec![Item::Folder("b".to_string(), vec![Item::File("c.txt".to_string())], None)],
        None,
    );
    assert!(update_has_terminal_file(&mut item));
    assert_eq!(
        item,
        Item::Folder(
            "a".to_string(),
            vec![Item::Folder("b".to_string(), vec![Item::File("c.txt".to_string())], Some(true))],
            Some(true),
        )
    );
    let mut empty = Item::Folder("e".to_string(), vec![Item::Folder("f".to_string(), Vec::new(), None)], None);
    assert!(!update_has_terminal_file(&mut empty));
    assert_eq!(
        empty,
        Item::Folder("e".to_string(), vec![Item::Folder("f".to_string(), Vec::new(), Some(false))], Some(false))
    );
    let mut f = Item::File("x".to_string());
    assert!(update_has_terminal_file(&mut f));
}

#[test]
fn traversal_annotates_tree() {
    let o = options(&[], &[], &[], true);
    let tree = dir("a", vec![dir("b", vec![file("c.txt")]), dir("d", Vec::new())]);
    let r = get_folder_structure(&tree, false, &o).unwrap();
    assert_eq!(
        r,
        Item::Folder(
            "a".to_string(),
            vec![
                Item::Folder("b".to_string(), vec![Item::File("c.txt".to_string())], Some(true)),
                Item::Folder("d".to_string(), Vec::new(), Some(false)),
            ],
            Some(true),
        )
    );
}

#[test]
fn include_only_rust_example() {
    let o = options(&["rs"], &[], &[], false);
    let tree = dir("proj", vec![file("main.rs"), file("README.md"), dir(".git", vec![file("config")])]);
    assert_eq!(lines(&tree, false, &o), strings(&["proj", "    └── main.rs"]));
}

#[test]
fn empty_subfolder_example() {
    let tree = dir("r", vec![dir("empty", Vec::new()), file("a.txt")]);
    let hide = options(&[], &[], &[], false);
    assert_eq!(lines(&tree, false, &hide), strings(&["r", "    └── a.txt"]));
    let show = options(&[], &[], &[], true);
    assert_eq!(lines(&tree, false, &show), strings(&["r", "    ├── empty/", "    └── a.txt"]));
}

#[test]
fn filtered_and_empty_folders_fail() {
    let hide = options(&["rs"], &[], &[], false);
    let filtered = dir("f", vec![file("a.md")]);
    let empty = dir("e", Vec::new());
    assert_eq!(get_folder_structure(&filtered, false, &hide).unwrap_err(), FsError::EmptyFolder);
    assert_eq!(get_folder_structure(&empty, false, &hide).unwrap_err(), FsError::EmptyFolder);
    let show = options(&["rs"], &[], &[], true);
    assert_eq!(lines(&filtered, false, &show), strings(&["f"]));
    assert_eq!(lines(&empty, false, &show), strings(&["e"]));
}

#[test]
fn filtered_root_file() {
    let o = options(&[], &["md"], &[], false);
    assert_eq!(get_folder_structure(&file("a.md"), false, &o).unwrap_err(), FsError::Filtered);
    assert_eq!(lines(&file("a.rs"), false, &o), strings(&["└── a.rs"]));
}

#[test]
fn unreadable_directory_fails() {
    let o = options(&[], &[], &[], true);
    let tree = dir("r", vec![file("a.txt"), dir("sub", vec![DiskEntry::Unreadable(name("locked"))])]);
    assert_eq!(get_folder_structure(&tree, false, &o).unwrap_err(), FsError::IoError);
    let hidden = dir("r", vec![file("a.txt"), DiskEntry::Unreadable(name(".locked"))]);
    assert_eq!(lines(&hidden, false, &o), strings(&["r", "    └── a.txt"]));
}

#[test]
fn pattern_excluded_folder_pruned() {
    let o = options(&[], &[], &["^build$"], true);
    let tree = dir("r", vec![dir("build", vec![file("out.o"), DiskEntry::Unreadable(name("x"))]), file("a.c")]);
    assert_eq!(lines(&tree, false, &o), strings(&["r", "    └── a.c"]));
}

#[test]
fn current_dir_root_named_dot() {
    let o = options(&[], &[], &[], false);
    let tree = DiskEntry::Dir(None, vec![file("a.txt")]);
    assert_eq!(lines(&tree, true, &o), strings(&[".", "    └── a.txt"]));
    assert_eq!(get_path_name(&tree), "");
    assert_eq!(get_path_name(&file("x")), "x");
}

#[test]
fn nested_prefixes() {
    let o = options(&[], &[], &[], false);
    let tree = dir("r", vec![dir("a", vec![dir("b", vec![file("c")]), file("d")]), file("e")]);
    assert_eq!(
        lines(&tree, false, &o),
        strings(&["r", "    ├── a/", "    │   ├── b/", "    │   │   └── c", "    │   └── d", "    └── e"])
    );
}

#[test]
fn hidden_empty_folder_inside_render() {
    let o = options(&["rs"], &[], &[], false);
    let tree = Item::Folder(
        "r".to_string(),
        vec![Item::Folder("x".to_string(), Vec::new(), Some(false)), Item::File("m.rs".to_string())],
        Some(true),
    );
    assert_eq!(render_tree(&tree, &o), strings(&["r", "    └── m.rs"]));
}

#[test]
fn rendering_is_deterministic() {
    let o = options(&[], &["md"], &[], false);
    let tree = dir("r", vec![file("z.rs"), dir("a", vec![file("b.rs"), file("c.md")]), file("y.rs")]);
    let first = lines(&tree, false, &o);
    let second = lines(&tree, false, &o);
    assert_eq!(first, second);
    assert_eq!(first, strings(&["r", "    ├── a/", "    │   └── b.rs", "    ├── y.rs", "    └── z.rs"]));
}
