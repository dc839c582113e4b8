use ratatui::style::{Color, Style};
use tui_breadcrumb::BreadcrumbSeparator;

#[test]
fn test_separator_presets_width() {
    let chevron = BreadcrumbSeparator::chevron();
    assert_eq!(chevron.symbol, "❯");
    assert_eq!(chevron.spacing, 1);
    // " ❯ " -> 1 + 1 + 1 = 3
    assert_eq!(chevron.total_width(), 3);

    let slash = BreadcrumbSeparator::slash().spacing(0);
    assert_eq!(slash.symbol, "/");
    assert_eq!(slash.spacing, 0);
    assert_eq!(slash.total_width(), 1);

    let pipe = BreadcrumbSeparator::pipe();
    assert_eq!(pipe.total_width(), 3);

    let arrow = BreadcrumbSeparator::arrow();
    assert_eq!(arrow.total_width(), 3);

    let angle = BreadcrumbSeparator::angle();
    assert_eq!(angle.total_width(), 3);

    let backslash = BreadcrumbSeparator::backslash();
    assert_eq!(backslash.total_width(), 3);

    let double_angle = BreadcrumbSeparator::double_angle();
    assert_eq!(double_angle.total_width(), 3);
}

#[test]
fn test_custom_separator_styling() {
    let sep = BreadcrumbSeparator::custom("•")
        .spacing(2)
        .style(Style::default().fg(Color::Magenta));

    assert_eq!(sep.symbol, "•");
    assert_eq!(sep.spacing, 2);
    // "  •  " -> 2 + 1 + 2 = 5
    assert_eq!(sep.total_width(), 5);
    assert_eq!(sep.style, Style::default().fg(Color::Magenta));
}

#[test]
fn preset_symbols() {
    assert_eq!(BreadcrumbSeparator::angle().symbol, "›");
    assert_eq!(BreadcrumbSeparator::arrow().symbol, "→");
    assert_eq!(BreadcrumbSeparator::pipe().symbol, "|");
    assert_eq!(BreadcrumbSeparator::backslash().symbol, "\\");
    assert_eq!(BreadcrumbSeparator::double_angle().symbol, "»");
    assert_eq!(BreadcrumbSeparator::default().symbol, "❯");
    assert_eq!(BreadcrumbSeparator::default().style, Style::default());
}

#[test]
fn wide_separator_symbol_counts_its_columns() {
    let sep = BreadcrumbSeparator::custom("⟶⟶").spacing(3);
    assert_eq!(sep.total_width(), 2 + 6);
    let cjk = BreadcrumbSeparator::custom("中").spacing(0);
    assert_eq!(cjk.total_width(), 2);
}
