use treeview::{
    collect_entries, print_tree, summary_line, visible, AccessError, Args, EntryKind, Line,
    LineKind, Listing, Node, TreeStats,
};

fn default_args() -> Args {
    Args {
        path: String::from("."),
        all: false,
        depth: None,
        size: false,
        exclude: Vec::new(),
        no_icon: false,
    }
}

fn file(name: &str, size: u64) -> Node {
    Node {
        name: String::from(name),
        kind: EntryKind::File,
        size: Some(size),
        link_target: None,
        children: Listing::Listed(Vec::new()),
    }
}

fn dir(name: &str, children: Vec<Node>) -> Node {
    Node {
        name: String::from(name),
        kind: EntryKind::Directory,
        size: None,
        link_target: None,
        children: Listing::Listed(children),
    }
}

/// The sample tree the tests run against:
/// root
/// |-- file1.txt   (0 bytes)
/// |-- main.rs
/// |-- .hidden
/// `-- src
///     `-- lib.rs
fn sample_root() -> Listing {
    Listing::Listed(vec![
        file("file1.txt", 0),
        file("main.rs", 7),
        file(".hidden", 1),
        dir("src", vec![file("lib.rs", 42)]),
    ])
}

fn render_text(root: &Listing, args: &Args) -> (String, TreeStats) {
    let (lines, stats) = print_tree(root, &String::new(), args, 0);
    let mut out = String::new();
    for l in &lines {
        out.push_str(l.text().as_str());
        out.push('\n');
    }
    (out, stats)
}

#[test]
fn test_basic_output() {
    let root = sample_root();
    let (out, _) = render_text(&root, &default_args());
    assert!(out.contains("file1.txt"));
    assert!(out.contains("main.rs"));
    assert!(out.contains("src"));
}

#[test]
fn test_flag_all_shows_hidden() {
    let root = sample_root();

    let (out, _) = render_text(&root, &default_args());
    assert!(!out.contains(".hidden"));

    let mut args_all = default_args();
    args_all.all = true;
    let (out_all, _) = render_text(&root, &args_all);
    assert!(out_all.contains(".hidden"));
}

#[test]
fn test_flag_depth_limits_output() {
    let root = sample_root();
    let mut args = default_args();
    args.depth = Some(1);
    let (out, _) = render_text(&root, &args);
    assert!(out.contains("src"));
    assert!(!out.contains("lib.rs"));
}

#[test]
fn test_flag_exclude_ignores_files() {
    let root = sample_root();
    let mut args = default_args();
    args.exclude = vec![String::from("main.rs")];
    let (out, _) = render_text(&root, &args);
    assert!(out.contains("file1.txt"));
    assert!(!out.contains("main.rs"));
}

#[test]
fn test_flag_size_shows_bytes() {
    let root = sample_root();
    let mut args = default_args();
    args.size = true;
    let (out, _) = render_text(&root, &args);
    assert!(out.contains("B"));
}

#[test]
fn test_flag_no_icon_removes_icons() {
    let root = sample_root();

    let (out, _) = render_text(&root, &default_args());
    assert!(out.contains("\u{e7a8}"));

    let mut args_plain = default_args();
    args_plain.no_icon = true;
    let (out_plain, _) = render_text(&root, &args_plain);
    assert!(!out_plain.contains("\u{e7a8}"));
}

#[test]
fn end_to_end_default_run() {
    let root = sample_root();
    let mut args = default_args();
    args.no_icon = true;
    let (lines, stats) = print_tree(&root, &String::new(), &args, 0);

    let texts: Vec<String> = lines.iter().map(|l| l.text()).collect();
    assert_eq!(
        texts,
        vec![
            String::from("\u{251c}\u{2500}\u{2500} file1.txt"),
            String::from("\u{251c}\u{2500}\u{2500} main.rs"),
            String::from("\u{2514}\u{2500}\u{2500} src"),
            String::from("    \u{2514}\u{2500}\u{2500} lib.rs"),
        ]
    );
    assert_eq!(stats.directories, 1);
    assert_eq!(stats.files, 3);
    assert_eq!(summary_line(&stats), "1 directories, 3 files");
}

#[test]
fn stats_count_exactly_the_printed_lines() {
    let root = sample_root();
    let mut args = default_args();
    args.all = true;
    let (lines, stats) = print_tree(&root, &String::new(), &args, 0);
    let dir_lines = lines.iter().filter(|l| l.kind == LineKind::Dir).count() as u64;
    let file_lines = lines
        .iter()
        .filter(|l| l.kind == LineKind::File || l.kind == LineKind::Symlink)
        .count() as u64;
    assert_eq!(stats.directories, dir_lines);
    assert_eq!(stats.files, file_lines);
    assert_eq!(stats.files, 4);
}

#[test]
fn children_sorted_by_codepoint() {
    let root = Listing::Listed(vec![file("b", 0), file("A", 0), file("a", 0)]);
    let mut args = default_args();
    args.no_icon = true;
    let (lines, _) = print_tree(&root, &String::new(), &args, 0);
    let names: Vec<&str> = lines.iter().map(|l| l.name.as_str()).collect();
    assert_eq!(names, vec!["A", "a", "b"]);

    // Re-rendering the unchanged tree gives byte-identical output.
    let (lines2, _) = print_tree(&root, &String::new(), &args, 0);
    let t1: Vec<String> = lines.iter().map(|l| l.text()).collect();
    let t2: Vec<String> = lines2.iter().map(|l| l.text()).collect();
    assert_eq!(t1, t2);
}

#[test]
fn one_corner_per_level_and_last() {
    let root = sample_root();
    let mut args = default_args();
    args.no_icon = true;
    let (lines, _) = print_tree(&root, &String::new(), &args, 0);
    // Top level: prefixes are empty; exactly the last of those lines
    // carries the corner connector.
    let top: Vec<&Line> = lines.iter().filter(|l| l.prefix.is_empty()).collect();
    assert_eq!(top.len(), 3);
    assert_eq!(top[0].connector, "\u{251c}\u{2500}\u{2500} ");
    assert_eq!(top[1].connector, "\u{251c}\u{2500}\u{2500} ");
    assert_eq!(top[2].connector, "\u{2514}\u{2500}\u{2500} ");
}

#[test]
fn unreadable_directory_renders_one_error_line() {
    let root = Listing::Listed(vec![Node {
        name: String::from("locked"),
        kind: EntryKind::Directory,
        size: None,
        link_target: None,
        children: Listing::Unreadable(AccessError::PermissionDenied),
    }]);
    let mut args = default_args();
    args.no_icon = true;
    let (lines, stats) = print_tree(&root, &String::new(), &args, 0);
    let texts: Vec<String> = lines.iter().map(|l| l.text()).collect();
    assert_eq!(
        texts,
        vec![
            String::from("\u{2514}\u{2500}\u{2500} locked"),
            String::from("    \u{2514}\u{2500}\u{2500} [Permission Denied]"),
        ]
    );
    assert_eq!(stats.directories, 1);
    assert_eq!(stats.files, 0);
    assert_eq!(lines[1].kind, LineKind::Error);
}

#[test]
fn depth_zero_renders_nothing() {
    let root = sample_root();
    let mut args = default_args();
    args.depth = Some(0);
    let (lines, stats) = print_tree(&root, &String::new(), &args, 0);
    assert!(lines.is_empty());
    assert_eq!(stats.directories, 0);
    assert_eq!(stats.files, 0);
}

#[test]
fn excluded_directory_is_pruned_entirely() {
    let root = Listing::Listed(vec![
        dir("src", vec![file("lib.rs", 1)]),
        file("keep.txt", 1),
    ]);
    let mut args = default_args();
    args.exclude = vec![String::from("src")];
    let (out, stats) = render_text(&root, &args);
    assert!(!out.contains("src"));
    assert!(!out.contains("lib.rs"));
    assert!(out.contains("keep.txt"));
    assert_eq!(stats.directories, 0);
    assert_eq!(stats.files, 1);
}

#[test]
fn collect_entries_filters_and_sorts() {
    let children = vec![
        file("b.txt", 0),
        file(".h", 0),
        file("skip.me", 0),
        file("a.txt", 0),
    ];
    let mut args = default_args();
    args.exclude = vec![String::from("skip.me")];
    let order = collect_entries(&children, &args);
    let names: Vec<&str> = order.iter().map(|n| n.name.as_str()).collect();
    assert_eq!(names, vec!["a.txt", "b.txt"]);
}

#[test]
fn visibility_of_single_names() {
    let args = default_args();
    assert!(!visible(&String::from(".hidden"), &args));
    assert!(visible(&String::from("shown"), &args));

    let mut args_all = default_args();
    args_all.all = true;
    assert!(visible(&String::from(".hidden"), &args_all));

    let mut args_excl = default_args();
    args_excl.exclude = vec![String::from("shown")];
    assert!(!visible(&String::from("shown"), &args_excl));
}

#[test]
fn stats_add_merges_totals() {
    let mut a = TreeStats::new();
    assert_eq!(a.directories, 0);
    assert_eq!(a.files, 0);
    a.directories = 2;
    a.files = 3;
    let mut b = TreeStats::new();
    b.directories = 5;
    b.files = 7;
    a.add(b);
    assert_eq!(a.directories, 7);
    assert_eq!(a.files, 10);
}
