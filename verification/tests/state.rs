use tui_breadcrumb::geometry::Rect;
use tui_breadcrumb::BreadcrumbState;

#[test]
fn test_selection_navigation() {
    let mut state = BreadcrumbState::default();
    assert_eq!(state.selected(), None);

    state.select_next(3);
    assert_eq!(state.selected(), Some(0));

    state.select_next(3);
    assert_eq!(state.selected(), Some(1));

    state.select_next(3);
    assert_eq!(state.selected(), Some(2));

    // Clamped at end
    state.select_next(3);
    assert_eq!(state.selected(), Some(2));

    // Move backward
    state.select_previous(3);
    assert_eq!(state.selected(), Some(1));

    state.select_first();
    assert_eq!(state.selected(), Some(0));

    state.select_last(3);
    assert_eq!(state.selected(), Some(2));
}

#[test]
fn test_hit_testing() {
    let mut state = BreadcrumbState::default();
    state.item_rects.push((0, Rect::new(0, 0, 5, 1)));
    state.dropdown_rects.push((0, Rect::new(5, 0, 2, 1)));
    state.ellipsis_rect = Some(Rect::new(10, 0, 3, 1));

    // Test item hit
    assert_eq!(state.item_at(2, 0), Some(0));
    assert_eq!(state.item_at(6, 0), None);

    // Test dropdown hit
    assert_eq!(state.dropdown_at(5, 0), Some(0));
    assert_eq!(state.dropdown_at(2, 0), None);

    // Test ellipsis hit
    assert!(state.is_ellipsis_at(11, 0));
    assert!(!state.is_ellipsis_at(2, 0));
}

#[test]
fn doc_example_selects_next() {
    let mut state = BreadcrumbState::default();
    state.select(Some(2));
    assert_eq!(state.selected(), Some(2));
    state.select_next(5);
    assert_eq!(state.selected(), Some(3));
}

#[test]
fn empty_trail_clears_selection() {
    let mut state = BreadcrumbState::new();
    state.select(Some(4));
    state.select_next(0);
    assert_eq!(state.selected(), None);
    state.select(Some(4));
    state.select_previous(0);
    assert_eq!(state.selected(), None);
    state.select(Some(4));
    state.select_last(0);
    assert_eq!(state.selected(), None);
}

#[test]
fn previous_from_nothing_selects_last_and_clamps_at_first() {
    let mut state = BreadcrumbState::new();
    state.select_previous(4);
    assert_eq!(state.selected(), Some(3));
    state.select(Some(0));
    state.select_previous(4);
    assert_eq!(state.selected(), Some(0));
}

#[test]
fn next_then_previous_returns() {
    let mut state = BreadcrumbState::new();
    state.select(Some(1));
    state.select_next(5);
    state.select_previous(5);
    assert_eq!(state.selected(), Some(1));
    state.select_previous(5);
    state.select_next(5);
    assert_eq!(state.selected(), Some(1));
}

#[test]
fn out_of_range_selection_moves_back_by_one_only() {
    let mut state = BreadcrumbState::new();
    state.select(Some(10));
    state.select_previous(3);
    assert_eq!(state.selected(), Some(9));
    state.select(Some(10));
    state.select_next(3);
    assert_eq!(state.selected(), Some(2));
}

#[test]
fn first_of_overlapping_rects_wins() {
    let mut state = BreadcrumbState::new();
    state.item_rects.push((4, Rect::new(0, 0, 5, 1)));
    state.item_rects.push((7, Rect::new(2, 0, 5, 1)));
    assert_eq!(state.item_at(3, 0), Some(4));
    assert_eq!(state.item_at(6, 0), Some(7));
    assert_eq!(state.item_at(3, 1), None);
}

#[test]
fn rect_edges_saturate() {
    let r = Rect::new(65530, 0, 20, 1);
    assert!(r.contains(65534, 0));
    assert!(!r.contains(65535, 0));
    assert!(!r.contains(65529, 0));
    assert!(Rect::new(0, 0, 0, 3).is_empty());
    assert!(!Rect::new(0, 0, 1, 1).is_empty());
}
