use tui_breadcrumb::TruncateStrategy;

#[test]
fn test_strategy_defaults() {
    let strategy = TruncateStrategy::default();
    assert_eq!(
        strategy,
        TruncateStrategy::Middle { min_head_items: 1, min_tail_items: 2, ellipsis: String::from("...") }
    );
    assert_eq!(TruncateStrategy::none(), TruncateStrategy::Clip);
}

#[test]
fn strategy_constructors() {
    assert_eq!(
        TruncateStrategy::start(),
        TruncateStrategy::Start { min_tail_items: 2, ellipsis: String::from("...") }
    );
    assert_eq!(TruncateStrategy::end(), TruncateStrategy::End { min_head_items: 1, ellipsis: String::from("...") });
    assert_eq!(
        TruncateStrategy::shorten_names(),
        TruncateStrategy::ShortenNames { max_abbrev_len: 1, preserve_tail_items: 2, ellipsis: String::from("...") }
    );
    assert_eq!(
        TruncateStrategy::middle_with(2, 3, "…"),
        TruncateStrategy::Middle { min_head_items: 2, min_tail_items: 3, ellipsis: String::from("…") }
    );
    assert_eq!(
        TruncateStrategy::start_with(2, "…"),
        TruncateStrategy::Start { min_tail_items: 2, ellipsis: String::from("…") }
    );
    assert_eq!(TruncateStrategy::end_with(0, "~"), TruncateStrategy::End { min_head_items: 0, ellipsis: String::from("~") });
    assert_eq!(
        TruncateStrategy::shorten_names_with(1, 2, "..."),
        TruncateStrategy::ShortenNames { max_abbrev_len: 1, preserve_tail_items: 2, ellipsis: String::from("...") }
    );
}
