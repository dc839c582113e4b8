use tui_breadcrumb::truncate::{build_clipped_layout, build_full_layout, resolve_layout, shorten_str, RenderElement};
use tui_breadcrumb::{BreadcrumbItem, TruncateStrategy};

fn item(index: usize) -> RenderElement {
    RenderElement::Item { index, abbreviated_label: None }
}

fn abbrev(index: usize, text: &str) -> RenderElement {
    RenderElement::Item { index, abbreviated_label: Some(text.into()) }
}

fn ellipsis() -> RenderElement {
    RenderElement::Ellipsis { text: "...".into() }
}

fn five() -> Vec<BreadcrumbItem> {
    vec![
        BreadcrumbItem::new("Home"),
        BreadcrumbItem::new("Projects"),
        BreadcrumbItem::new("ratatui"),
        BreadcrumbItem::new("src"),
        BreadcrumbItem::new("lib.rs"),
    ]
}

fn three() -> Vec<BreadcrumbItem> {
    vec![BreadcrumbItem::new("Home"), BreadcrumbItem::new("Projects"), BreadcrumbItem::new("ratatui")]
}

#[test]
fn test_shorten_str() {
    assert_eq!(shorten_str("Home", 1), "H");
    assert_eq!(shorten_str("Projects", 2), "Pr");
    assert_eq!(shorten_str("🦀 Rust", 1), "🦀");
    assert_eq!(shorten_str("", 1), "");
}

#[test]
fn shorten_str_edges() {
    assert_eq!(shorten_str("abc", 0), "");
    assert_eq!(shorten_str("abc", 3), "abc");
    assert_eq!(shorten_str("abc", 10), "abc");
    assert_eq!(shorten_str("日本語", 2), "日本");
}

#[test]
fn test_resolve_layout_full_fit() {
    let items = three();
    // "Home" (4) + sep(3) + "Projects" (8) + sep(3) + "ratatui" (7) = 25
    let layout = resolve_layout(&items, 3, 30, &TruncateStrategy::middle(), "▾");
    assert_eq!(layout, vec![item(0), RenderElement::Separator, item(1), RenderElement::Separator, item(2)]);
}

#[test]
fn test_resolve_layout_start() {
    let items = five();
    let layout = resolve_layout(&items, 3, 20, &TruncateStrategy::start(), "▾");
    assert_eq!(
        layout,
        vec![ellipsis(), RenderElement::Separator, item(3), RenderElement::Separator, item(4)]
    );
}

#[test]
fn test_resolve_layout_middle() {
    let items = five();
    let layout = resolve_layout(&items, 3, 26, &TruncateStrategy::middle(), "▾");
    assert_eq!(
        layout,
        vec![
            item(0),
            RenderElement::Separator,
            ellipsis(),
            RenderElement::Separator,
            item(3),
            RenderElement::Separator,
            item(4),
        ]
    );
}

#[test]
fn test_resolve_layout_shorten_names() {
    let items = five();
    let strategy = TruncateStrategy::shorten_names_with(1, 2, "...");
    let layout = resolve_layout(&items, 3, 24, &strategy, "▾");
    assert_eq!(
        layout,
        vec![
            abbrev(0, "H"),
            RenderElement::Separator,
            abbrev(1, "P"),
            RenderElement::Separator,
            abbrev(2, "r"),
            RenderElement::Separator,
            item(3),
            RenderElement::Separator,
            item(4),
        ]
    );
}

#[test]
fn empty_trail_or_width_gives_nothing() {
    let none: Vec<BreadcrumbItem> = Vec::new();
    assert!(resolve_layout(&none, 3, 30, &TruncateStrategy::middle(), "▾").is_empty());
    assert!(resolve_layout(&three(), 3, 0, &TruncateStrategy::middle(), "▾").is_empty());
}

#[test]
fn clip_keeps_leading_segments_that_fit() {
    let layout = resolve_layout(&three(), 3, 16, &TruncateStrategy::none(), "▾");
    assert_eq!(layout, vec![item(0), RenderElement::Separator, item(1)]);
    let layout = resolve_layout(&three(), 3, 3, &TruncateStrategy::none(), "▾");
    assert!(layout.is_empty());
}

#[test]
fn end_keeps_head_before_ellipsis() {
    let layout = resolve_layout(&three(), 3, 10, &TruncateStrategy::end(), "▾");
    assert_eq!(layout, vec![item(0), RenderElement::Separator, ellipsis()]);
    let layout = resolve_layout(&three(), 3, 2, &TruncateStrategy::end(), "▾");
    assert!(layout.is_empty());
    let layout = resolve_layout(&three(), 3, 8, &TruncateStrategy::end_with(0, "..."), "▾");
    assert_eq!(layout, vec![ellipsis()]);
}

#[test]
fn end_keeps_the_root_alone_when_the_ellipsis_no_longer_fits() {
    // 6 columns: "Home" fits, "Home ❯ ..." (10) does not; the root is shown alone.
    let layout = resolve_layout(&three(), 3, 6, &TruncateStrategy::end(), "▾");
    assert_eq!(layout, vec![item(0)]);
}

#[test]
fn start_falls_back_to_last_segment_or_ellipsis() {
    let layout = resolve_layout(&three(), 3, 8, &TruncateStrategy::start(), "▾");
    assert_eq!(layout, vec![item(2)]);
    let layout = resolve_layout(&three(), 3, 5, &TruncateStrategy::start(), "▾");
    assert_eq!(layout, vec![ellipsis()]);
    let layout = resolve_layout(&three(), 3, 2, &TruncateStrategy::start(), "▾");
    assert!(layout.is_empty());
}

#[test]
fn middle_with_two_segments_behaves_as_start() {
    let items = vec![BreadcrumbItem::new("Home"), BreadcrumbItem::new("Projects")];
    let layout = resolve_layout(&items, 3, 10, &TruncateStrategy::middle(), "▾");
    assert_eq!(layout, vec![item(1)]);
}

#[test]
fn middle_grows_tail_before_head() {
    let items = five();
    // Home ❯ ... ❯ ratatui ❯ src ❯ lib.rs = 4+3+3+3+7+3+3+3+6 = 35
    let layout = resolve_layout(&items, 3, 35, &TruncateStrategy::middle(), "▾");
    assert_eq!(
        layout,
        vec![
            item(0),
            RenderElement::Separator,
            ellipsis(),
            RenderElement::Separator,
            item(2),
            RenderElement::Separator,
            item(3),
            RenderElement::Separator,
            item(4),
        ]
    );
}

#[test]
fn shorten_names_falls_back_to_middle_over_short_widths() {
    let strategy = TruncateStrategy::shorten_names_with(1, 2, "...");
    let layout = resolve_layout(&five(), 3, 15, &strategy, "▾");
    assert_eq!(layout, vec![ellipsis(), RenderElement::Separator, item(4)]);
    // In 18 columns the fallback keeps the root under its abbreviation.
    let layout = resolve_layout(&five(), 3, 18, &strategy, "▾");
    assert_eq!(
        layout,
        vec![abbrev(0, "H"), RenderElement::Separator, ellipsis(), RenderElement::Separator, item(4)]
    );
    let layout = resolve_layout(&five(), 3, 20, &strategy, "▾");
    assert_eq!(
        layout,
        vec![
            abbrev(0, "H"),
            RenderElement::Separator,
            abbrev(1, "P"),
            RenderElement::Separator,
            ellipsis(),
            RenderElement::Separator,
            item(4),
        ]
    );
    assert_eq!(layout_width(&five(), 3, &layout), 20);
}

#[test]
fn dropdowns_count_in_widths() {
    let items = vec![BreadcrumbItem::with_dropdown("Home"), BreadcrumbItem::new("src")];
    // "Home ▾" (6) + 3 + "src" (3) = 12
    let layout = resolve_layout(&items, 3, 12, &TruncateStrategy::none(), "▾");
    assert_eq!(layout.len(), 3);
    let layout = resolve_layout(&items, 3, 11, &TruncateStrategy::none(), "▾");
    assert_eq!(layout, vec![item(0)]);
}

#[test]
fn full_and_clipped_builders() {
    assert!(build_full_layout(0).is_empty());
    assert_eq!(build_full_layout(2), vec![item(0), RenderElement::Separator, item(1)]);
    assert_eq!(build_clipped_layout(&[4, 8, 7], 3, 16), vec![item(0), RenderElement::Separator, item(1)]);
    assert!(build_clipped_layout(&[20], 3, 10).is_empty());
}

fn layout_width(items: &[BreadcrumbItem], sep: usize, layout: &[RenderElement]) -> usize {
    layout
        .iter()
        .map(|e| match e {
            RenderElement::Separator => sep,
            RenderElement::Ellipsis { text } => unicode_width::UnicodeWidthStr::width(text.as_str()),
            RenderElement::Item { index, abbreviated_label: Some(a) } => {
                items[*index].width_with_label(unicode_width::UnicodeWidthStr::width(a.as_str()), "▾")
            }
            RenderElement::Item { index, abbreviated_label: None } => items[*index].total_width("▾"),
        })
        .sum()
}

#[test]
fn layouts_fit_their_width() {
    let trail = vec![
        BreadcrumbItem::new("Home"),
        BreadcrumbItem::with_dropdown("Projects"),
        BreadcrumbItem::new("ratatui"),
        BreadcrumbItem::new("src"),
        BreadcrumbItem::new("sparkline.rs"),
    ];
    for avail in 0..60 {
        for strategy in [
            TruncateStrategy::middle(),
            TruncateStrategy::start(),
            TruncateStrategy::end(),
            TruncateStrategy::shorten_names(),
            TruncateStrategy::none(),
        ] {
            let layout = resolve_layout(&trail, 3, avail, &strategy, "▾");
            assert!(layout_width(&trail, 3, &layout) <= avail, "{:?} {}", strategy, avail);
        }
    }
}

#[test]
fn layouts_keep_segment_order() {
    let trail = five();
    for avail in 1..40 {
        for strategy in [
            TruncateStrategy::middle(),
            TruncateStrategy::start(),
            TruncateStrategy::end(),
            TruncateStrategy::shorten_names(),
            TruncateStrategy::none(),
        ] {
            let layout = resolve_layout(&trail, 3, avail, &strategy, "▾");
            let indices: Vec<usize> = layout
                .iter()
                .filter_map(|e| match e {
                    RenderElement::Item { index, .. } => Some(*index),
                    _ => None,
                })
                .collect();
            assert!(indices.windows(2).all(|w| w[0] < w[1]));
            assert!(indices.iter().all(|&i| i < trail.len()));
        }
    }
}

#[test]
fn shorten_names_fallback_fits_its_width() {
    let strategy = TruncateStrategy::shorten_names_with(1, 2, "...");
    let layout = resolve_layout(&five(), 3, 18, &strategy, "▾");
    assert_eq!(layout_width(&five(), 3, &layout), 16);
}

#[test]
fn middle_and_start_keep_the_leaf_end_keeps_the_root() {
    let trail = five();
    let layout = resolve_layout(&trail, 3, 12, &TruncateStrategy::start(), "▾");
    assert_eq!(layout.last(), Some(&item(4)));
    let layout = resolve_layout(&trail, 3, 19, &TruncateStrategy::middle(), "▾");
    assert_eq!(layout.first(), Some(&item(0)));
    assert_eq!(layout.last(), Some(&item(4)));
    let layout = resolve_layout(&trail, 3, 7, &TruncateStrategy::end(), "▾");
    assert_eq!(layout.first(), Some(&item(0)));
}
