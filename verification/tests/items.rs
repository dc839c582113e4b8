use ratatui::style::{Color, Style};
use tui_breadcrumb::item::Label;
use tui_breadcrumb::BreadcrumbItem;

fn label_text(item: &BreadcrumbItem) -> String {
    item.label.spans.iter().map(|s| s.content.as_str()).collect()
}

#[test]
fn test_breadcrumb_item_creation() {
    let item = BreadcrumbItem::new("Home");
    assert_eq!(item.label_width(), 4);
    assert_eq!(item.total_width("▾"), 4);
    assert!(!item.has_dropdown);

    let item_dropdown = BreadcrumbItem::with_dropdown("src");
    assert_eq!(item_dropdown.label_width(), 3);
    // "src" (3) + " " (1) + "▾" (1) = 5
    assert_eq!(item_dropdown.total_width("▾"), 5);
    assert!(item_dropdown.has_dropdown);
}

#[test]
fn test_breadcrumb_item_custom_dropdown() {
    let item = BreadcrumbItem::new("config").dropdown(true).dropdown_symbol("▼");
    assert_eq!(item.label_width(), 6);
    // "config" (6) + 1 + 1 = 8
    assert_eq!(item.total_width("▾"), 8);
}

#[test]
fn item_label_is_one_span_of_the_whole_text() {
    let item = BreadcrumbItem::new("Projects");
    assert_eq!(item.label.spans.len(), 1);
    assert_eq!(label_text(&item), "Projects");
    assert_eq!(item.label.spans[0].style, Style::default());
}

#[test]
fn empty_label_has_no_spans_and_no_width() {
    let item = BreadcrumbItem::new("");
    assert_eq!(item.label.spans.len(), 0);
    assert_eq!(item.label_width(), 0);
    assert_eq!(item.label.text_string(), "");
}

#[test]
fn wide_characters_take_two_columns() {
    let item = BreadcrumbItem::new("🦀 Rust");
    assert_eq!(item.label_width(), 7);
    let cjk = BreadcrumbItem::new("日本");
    assert_eq!(cjk.label_width(), 4);
}

#[test]
fn own_dropdown_symbol_overrides_the_default_in_width() {
    let item = BreadcrumbItem::with_dropdown("a").dropdown_symbol("▼▼");
    assert_eq!(item.total_width("▾"), 4);
    assert_eq!(item.width_with_label(10, "▾"), 13);
    let plain = BreadcrumbItem::new("abc");
    assert_eq!(plain.width_with_label(10, "▾"), 10);
}

#[test]
fn item_style_overrides_are_kept() {
    let item = BreadcrumbItem::new("x")
        .style(Style::default().fg(Color::Yellow))
        .selected_style(Style::default().fg(Color::Red));
    assert_eq!(item.style, Some(Style::default().fg(Color::Yellow)));
    assert_eq!(item.selected_style, Some(Style::default().fg(Color::Red)));
}

#[test]
fn label_text_joins_spans() {
    let label = Label::raw("two\nlines");
    let item = BreadcrumbItem::from_label(label);
    assert_eq!(item.label.spans.len(), 2);
    assert_eq!(item.label.text_string(), "twolines");
    assert_eq!(item.label_width(), 8);
}

#[test]
fn cloned_item_keeps_everything() {
    let item = BreadcrumbItem::with_dropdown("config").dropdown_symbol("▼");
    let copy = item.clone();
    assert_eq!(copy, item);
}

#[test]
fn labels_split_at_line_endings() {
    let item = BreadcrumbItem::new("a\r\nb\n");
    let texts: Vec<&str> = item.label.spans.iter().map(|s| s.content.as_str()).collect();
    assert_eq!(texts, vec!["a", "b"]);
    let item = BreadcrumbItem::new("a\r");
    let texts: Vec<&str> = item.label.spans.iter().map(|s| s.content.as_str()).collect();
    assert_eq!(texts, vec!["a\r"]);
}
