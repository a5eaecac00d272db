use treeview::{
    error_message, extension_of, format_node_label, format_size, get_icon, u64_to_dec,
    AccessError, Args, EntryKind, Listing, Node,
};

fn plain_args() -> Args {
    Args {
        path: String::from("."),
        all: false,
        depth: None,
        size: false,
        exclude: Vec::new(),
        no_icon: true,
    }
}

#[test]
fn size_units_and_thresholds() {
    assert_eq!(format_size(0), "0 B");
    assert_eq!(format_size(1), "1 B");
    assert_eq!(format_size(1023), "1023 B");
    assert_eq!(format_size(1024), "1.0 KB");
    assert_eq!(format_size(1536), "1.5 KB");
    assert_eq!(format_size(1048575), "1024.0 KB");
    assert_eq!(format_size(1048576), "1.0 MB");
    assert_eq!(format_size(1073741823), "1024.0 MB");
    assert_eq!(format_size(1073741824), "1.0 GB");
    assert_eq!(format_size(1610612736), "1.5 GB");
}

#[test]
fn decimal_rendering() {
    assert_eq!(u64_to_dec(0), "0");
    assert_eq!(u64_to_dec(9), "9");
    assert_eq!(u64_to_dec(10), "10");
    assert_eq!(u64_to_dec(1234567890), "1234567890");
    assert_eq!(u64_to_dec(u64::MAX), "18446744073709551615");
}

#[test]
fn icons_for_reserved_names_and_extensions() {
    assert_eq!(get_icon("anything", true), "\u{f07b}");
    assert_eq!(get_icon("Dockerfile", false), "\u{f308}");
    assert_eq!(get_icon("docker-compose.yml", false), "\u{f308}");
    assert_eq!(get_icon("Makefile", false), "\u{e60d}");
    assert_eq!(get_icon("Cargo.toml", false), "\u{e7a8}");
    assert_eq!(get_icon("Cargo.lock", false), "\u{e7a8}");
    assert_eq!(get_icon(".gitignore", false), "\u{f1d3}");
    assert_eq!(get_icon("main.rs", false), "\u{e7a8}");
    assert_eq!(get_icon("MAIN.RS", false), "\u{e7a8}");
    assert_eq!(get_icon("notes.txt", false), "\u{f15c}");
    assert_eq!(get_icon("report.pdf", false), "\u{f1c1}");
    assert_eq!(get_icon("archive.7z", false), "\u{f410}");
    assert_eq!(get_icon("noext", false), "\u{f15b}");
    assert_eq!(get_icon(".hidden", false), "\u{f15b}");
}

#[test]
fn extension_detection() {
    assert_eq!(extension_of("a.tar.gz"), Some("gz"));
    assert_eq!(extension_of("main.rs"), Some("rs"));
    assert_eq!(extension_of(".gitignore"), None);
    assert_eq!(extension_of("noext"), None);
    assert_eq!(extension_of("trailing."), Some(""));
}

#[test]
fn error_messages_per_cause() {
    assert_eq!(error_message(&AccessError::PermissionDenied), "Permission Denied");
    assert_eq!(error_message(&AccessError::NotFound), "Not Found");
    assert_eq!(error_message(&AccessError::Access), "Access Error");
    assert_eq!(error_message(&AccessError::Unknown), "Unknown Error");
}

#[test]
fn label_of_plain_file_with_size() {
    let n = Node {
        name: String::from("file1.txt"),
        kind: EntryKind::File,
        size: Some(1536),
        link_target: None,
        children: Listing::Listed(Vec::new()),
    };
    let mut args = plain_args();
    args.size = true;
    assert_eq!(format_node_label(&n, &args), "file1.txt [1.5 KB]");
}

#[test]
fn label_omits_size_when_metadata_failed() {
    let n = Node {
        name: String::from("file1.txt"),
        kind: EntryKind::File,
        size: None,
        link_target: None,
        children: Listing::Listed(Vec::new()),
    };
    let mut args = plain_args();
    args.size = true;
    assert_eq!(format_node_label(&n, &args), "file1.txt");
}

#[test]
fn label_of_symlink_appends_target() {
    let n = Node {
        name: String::from("link"),
        kind: EntryKind::Symlink,
        size: Some(5),
        link_target: Some(String::from("/tmp/target")),
        children: Listing::Listed(Vec::new()),
    };
    let mut args = plain_args();
    args.size = true;
    // A symlink gets its target, never a size suffix.
    assert_eq!(format_node_label(&n, &args), "link -> /tmp/target");
}

#[test]
fn label_of_symlink_tolerates_missing_target() {
    let n = Node {
        name: String::from("link"),
        kind: EntryKind::Symlink,
        size: None,
        link_target: None,
        children: Listing::Listed(Vec::new()),
    };
    assert_eq!(format_node_label(&n, &plain_args()), "link");
}

#[test]
fn label_with_icon() {
    let n = Node {
        name: String::from("main.rs"),
        kind: EntryKind::File,
        size: None,
        link_target: None,
        children: Listing::Listed(Vec::new()),
    };
    let mut args = plain_args();
    args.no_icon = false;
    assert_eq!(format_node_label(&n, &args), "\u{e7a8} main.rs");
}

#[test]
fn directories_never_show_a_size() {
    let n = Node {
        name: String::from("src"),
        kind: EntryKind::Directory,
        size: Some(4096),
        link_target: None,
        children: Listing::Listed(Vec::new()),
    };
    let mut args = plain_args();
    args.size = true;
    assert_eq!(format_node_label(&n, &args), "src");
}
