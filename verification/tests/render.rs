use ratatui::style::{Modifier, Style};
use tui_breadcrumb::geometry::{Alignment, Rect};
use tui_breadcrumb::render::PlannedCell;
use tui_breadcrumb::{Breadcrumb, BreadcrumbItem, BreadcrumbSeparator, BreadcrumbState, TruncateStrategy};

fn items(labels: &[&str]) -> Vec<BreadcrumbItem> {
    labels.iter().map(|l| BreadcrumbItem::new(l)).collect()
}

fn line(cells: &[PlannedCell], width: u16) -> String {
    let mut row = vec![' '; width as usize];
    for c in cells {
        row[c.x as usize] = c.symbol;
    }
    row.into_iter().collect::<String>().trim_end().to_string()
}

fn render_to_string(widget: &Breadcrumb, width: u16) -> String {
    let plan = widget.plan(Rect::new(0, 0, width, 1), None);
    line(&plan.cells, width)
}

#[test]
fn test_widget_render_stateless() {
    let widget = Breadcrumb::new(items(&["Home", "Projects", "ratatui"]))
        .separator(BreadcrumbSeparator::slash().spacing(1));
    let content = render_to_string(&widget, 30);
    assert!(content.starts_with("Home / Projects / ratatui"));
}

#[test]
fn test_widget_render_stateful() {
    let widget =
        Breadcrumb::new(items(&["Home", "Projects", "ratatui"])).separator(BreadcrumbSeparator::chevron());

    let mut state = BreadcrumbState::default();
    state.select(Some(1));

    let _cells = widget.render_breadcrumb(Rect::new(0, 0, 30, 1), &mut state);

    assert_eq!(state.item_rects.len(), 3);
    assert_eq!(state.item_at(0, 0), Some(0));
    assert_eq!(state.item_at(7, 0), Some(1));
}

#[test]
fn test_snapshot_separators() {
    let labels = ["Home", "Projects", "ratatui"];
    let slash = render_to_string(&Breadcrumb::new(items(&labels)).separator(BreadcrumbSeparator::slash()), 30);
    let chevron =
        render_to_string(&Breadcrumb::new(items(&labels)).separator(BreadcrumbSeparator::chevron()), 30);
    let arrow = render_to_string(&Breadcrumb::new(items(&labels)).separator(BreadcrumbSeparator::arrow()), 30);
    let pipe = render_to_string(&Breadcrumb::new(items(&labels)).separator(BreadcrumbSeparator::pipe()), 30);
    assert_eq!(
        format!("slash: {}\nchevron: {}\narrow: {}\npipe: {}", slash, chevron, arrow, pipe),
        "slash: Home / Projects / ratatui\nchevron: Home ❯ Projects ❯ ratatui\narrow: Home → Projects → ratatui\npipe: Home | Projects | ratatui"
    );
}

#[test]
fn test_snapshot_truncation_strategies() {
    let labels = ["Home", "Projects", "ratatui", "src", "sparkline.rs"];
    let middle = render_to_string(&Breadcrumb::new(items(&labels)).strategy(TruncateStrategy::middle()), 30);
    let start = render_to_string(&Breadcrumb::new(items(&labels)).strategy(TruncateStrategy::start()), 30);
    let shorten =
        render_to_string(&Breadcrumb::new(items(&labels)).strategy(TruncateStrategy::shorten_names()), 30);
    let end = render_to_string(&Breadcrumb::new(items(&labels)).strategy(TruncateStrategy::end()), 30);
    assert_eq!(middle, "Home ❯ ... ❯ sparkline.rs");
    assert_eq!(start, "... ❯ src ❯ sparkline.rs");
    assert_eq!(shorten, "H ❯ P ❯ r ❯ src ❯ sparkline.rs");
    assert_eq!(end, "Home ❯ Projects ❯ ...");
}

#[test]
fn alignment_moves_the_start_column() {
    let base = Breadcrumb::new(items(&["Home", "Projects", "ratatui"]));
    let area = Rect::new(3, 2, 30, 1);
    let left = base.plan(area, None);
    assert_eq!(left.cells[0].x, 3);
    assert_eq!(left.cells[0].y, 2);
    let center = Breadcrumb::new(items(&["Home", "Projects", "ratatui"])).alignment(Alignment::Center).plan(area, None);
    // 30 columns, 25 used: 2 columns on the left.
    assert_eq!(center.cells[0].x, 5);
    let right = Breadcrumb::new(items(&["Home", "Projects", "ratatui"])).alignment(Alignment::Right).plan(area, None);
    assert_eq!(right.cells[0].x, 8);
    assert_eq!(right.cells.last().unwrap().x, 32);
}

#[test]
fn end_shows_the_root_alone_in_a_narrow_area() {
    let widget = Breadcrumb::new(items(&["Home", "Projects", "ratatui"])).strategy(TruncateStrategy::end());
    let mut state = BreadcrumbState::new();
    let cells = widget.render_breadcrumb(Rect::new(0, 0, 6, 1), &mut state);
    assert_eq!(line(&cells, 6), "Home");
    assert_eq!(cells.len(), 4);
    assert_eq!(state.ellipsis_rect, None);
    assert_eq!(state.item_rects, vec![(0, Rect::new(0, 0, 4, 1))]);
}

#[test]
fn wide_characters_take_their_display_width() {
    let widget = Breadcrumb::new(items(&["日本", "a"])).separator(BreadcrumbSeparator::chevron());
    let mut state = BreadcrumbState::default();
    let cells = widget.render_breadcrumb(Rect::new(0, 0, 20, 1), &mut state);
    assert_eq!(state.item_rects, vec![(0, Rect::new(0, 0, 4, 1)), (1, Rect::new(7, 0, 1, 1))]);
    let placed: Vec<(u16, char)> = cells.iter().map(|c| (c.x, c.symbol)).collect();
    assert_eq!(placed, vec![(0, '日'), (2, '本'), (4, ' '), (5, '❯'), (6, ' '), (7, 'a')]);
    assert_eq!(state.item_at(3, 0), Some(0));
    assert_eq!(state.item_at(7, 0), Some(1));
}

#[test]
fn dropdown_and_ellipsis_cells_are_recorded() {
    let trail = vec![BreadcrumbItem::with_dropdown("Home"), BreadcrumbItem::new("src")];
    let widget = Breadcrumb::new(trail);
    let mut state = BreadcrumbState::new();
    let cells = widget.render_breadcrumb(Rect::new(0, 0, 20, 1), &mut state);
    assert_eq!(line(&cells, 20), "Home ▾ ❯ src");
    assert_eq!(state.item_rects, vec![(0, Rect::new(0, 0, 4, 1)), (1, Rect::new(9, 0, 3, 1))]);
    assert_eq!(state.dropdown_rects, vec![(0, Rect::new(5, 0, 1, 1))]);
    assert_eq!(state.dropdown_at(5, 0), Some(0));
    assert_eq!(state.item_at(5, 0), None);

    let widget = Breadcrumb::new(items(&["Home", "Projects", "ratatui", "src", "lib.rs"]))
        .strategy(TruncateStrategy::start());
    let cells = widget.render_breadcrumb(Rect::new(0, 0, 20, 1), &mut state);
    assert_eq!(line(&cells, 20), "... ❯ src ❯ lib.rs");
    assert_eq!(state.ellipsis_rect, Some(Rect::new(0, 0, 3, 1)));
    assert!(state.is_ellipsis_at(1, 0));
    assert_eq!(state.item_at(6, 0), Some(3));
    assert_eq!(state.dropdown_rects.len(), 0);
}

#[test]
fn styles_of_selected_active_and_plain_segments() {
    let widget = Breadcrumb::new(items(&["a", "b", "c"]));
    let plan = widget.plan(Rect::new(0, 0, 20, 1), Some(1));
    let reversed = Style::default().add_modifier(Modifier::REVERSED);
    let bold = Style::default().add_modifier(Modifier::BOLD);
    // "a ❯ b ❯ c"
    assert_eq!(plan.cells[0].style, Style::default());
    assert_eq!(plan.cells[0].overlay, Some(Style::default()));
    assert_eq!(plan.cells[4].symbol, 'b');
    assert_eq!(plan.cells[4].style, Style::default());
    assert_eq!(plan.cells[4].overlay, Some(reversed));
    assert_eq!(plan.cells[8].symbol, 'c');
    assert_eq!(plan.cells[8].style, bold);
    assert_eq!(plan.cells[8].overlay, Some(Style::default()));
    assert_eq!(plan.cells[2].symbol, '❯');
    assert_eq!(plan.cells[2].overlay, None);
}

#[test]
fn empty_area_draws_nothing_and_records_it() {
    let widget = Breadcrumb::new(items(&["Home"]));
    let mut state = BreadcrumbState::new();
    let cells = widget.render_breadcrumb(Rect::new(4, 4, 0, 1), &mut state);
    assert!(cells.is_empty());
    assert_eq!(state.rendered_area, Rect::new(4, 4, 0, 1));
    assert!(state.item_rects.is_empty());
}

#[test]
fn default_widget_settings() {
    let widget = Breadcrumb::default();
    assert!(widget.items.is_empty());
    assert_eq!(widget.separator.symbol, "❯");
    assert_eq!(widget.strategy, TruncateStrategy::middle());
    assert_eq!(widget.selected_style, Style::default().add_modifier(Modifier::REVERSED));
    assert_eq!(widget.active_style, Some(Style::default().add_modifier(Modifier::BOLD)));
    assert_eq!(widget.dropdown_style, Style::default().add_modifier(Modifier::DIM));
    assert_eq!(widget.ellipsis_style, Style::default().add_modifier(Modifier::DIM));
    assert_eq!(widget.dropdown_symbol, "▾");
    assert_eq!(widget.alignment, Alignment::Left);
    assert!(widget.plan(Rect::new(0, 0, 10, 1), None).cells.is_empty());
}

#[test]
fn layouts_never_overflow_in_the_law_cases() {
    let labels = ["Home", "Projects", "ratatui", "src", "sparkline.rs"];
    for width in 3u16..60 {
        for strategy in [
            TruncateStrategy::middle(),
            TruncateStrategy::start(),
            TruncateStrategy::none(),
        ] {
            let widget = Breadcrumb::new(items(&labels)).strategy(strategy);
            let plan = widget.plan(Rect::new(0, 0, width, 1), None);
            assert!(plan.cells.len() <= width as usize);
            assert!(plan.cells.iter().all(|c| c.x < width && c.y == 0));
        }
    }
}

#[test]
fn every_recorded_cell_hits_its_segment() {
    let trail = vec![
        BreadcrumbItem::with_dropdown("Home"),
        BreadcrumbItem::with_dropdown("Projects"),
        BreadcrumbItem::new("ratatui"),
    ];
    let widget = Breadcrumb::new(trail);
    let mut state = BreadcrumbState::new();
    widget.render_breadcrumb(Rect::new(2, 3, 40, 1), &mut state);
    assert_eq!(state.item_rects.len(), 3);
    assert_eq!(state.dropdown_rects.len(), 2);
    for &(i, r) in &state.item_rects {
        for x in r.x..r.x + r.width {
            assert_eq!(state.item_at(x, 3), Some(i));
            assert_eq!(state.item_at(x, 4), None);
        }
    }
    for &(i, r) in &state.dropdown_rects {
        for x in r.x..r.x + r.width {
            assert_eq!(state.dropdown_at(x, 3), Some(i));
        }
    }
    assert_eq!(state.item_at(1, 3), None);
    assert_eq!(state.item_at(42, 3), None);
}

#[test]
fn last_terminal_row_holds_no_hits() {
    let widget = Breadcrumb::new(items(&["Home"]));
    let mut state = BreadcrumbState::new();
    widget.render_breadcrumb(Rect::new(0, 65535, 10, 1), &mut state);
    assert_eq!(state.item_rects, vec![(0, Rect::new(0, 65535, 4, 1))]);
    assert_eq!(state.item_at(1, 65535), None);
}
