use tui_breadcrumb::path::{items_from_parts, PathPart};
use tui_breadcrumb::{from_path, Breadcrumb, BreadcrumbItem};

fn labels(items: &[BreadcrumbItem]) -> Vec<String> {
    items
        .iter()
        .map(|item| item.label.spans.iter().map(|s| s.content.as_str()).collect())
        .collect()
}

#[test]
fn test_from_path() {
    let items = from_path("/projects/ratatui/src/main.rs");
    assert_eq!(labels(&items), vec!["/", "projects", "ratatui", "src", "main.rs"]);
}

#[test]
fn doc_example_path_has_five_segments() {
    let items = from_path("/var/log/nginx/access.log");
    assert_eq!(items.len(), 5);
}

#[test]
fn dot_segments_and_relative_paths() {
    let items = from_path("./a/../b");
    assert_eq!(labels(&items), vec![".", "a", "..", "b"]);
    let items = from_path("a//b/");
    assert_eq!(labels(&items), vec!["a", "b"]);
    assert_eq!(from_path("").len(), 0);
}

#[test]
fn parts_map_to_plain_items() {
    let parts = vec![
        PathPart::RootDir,
        PathPart::Prefix(String::from("C:")),
        PathPart::CurDir,
        PathPart::ParentDir,
        PathPart::Normal(String::from("docs")),
    ];
    let items = items_from_parts(&parts);
    assert_eq!(labels(&items), vec!["/", "C:", ".", "..", "docs"]);
    assert!(items.iter().all(|i| !i.has_dropdown && i.style.is_none() && i.dropdown_symbol.is_none()));
}

#[test]
fn breadcrumb_from_path_has_the_path_segments() {
    let b = Breadcrumb::from_path("/var/log/nginx/access.log");
    assert_eq!(b.items.len(), 5);
    assert_eq!(labels(&b.items), vec!["/", "var", "log", "nginx", "access.log"]);
}

#[test]
fn breadcrumb_from_path_uses_slash() {
    let b = Breadcrumb::from_path("/usr/bin");
    assert_eq!(b.separator.symbol, "/");
    assert_eq!(labels(&b.items), vec!["/", "usr", "bin"]);
}
