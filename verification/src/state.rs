//! Interactive state of a trail: the selected segment, and the cells of the
//! segments, dropdown indicators and ellipsis drawn in the last render, for
//! hit-testing mouse positions.

use vstd::prelude::*;
use crate::geometry::{Rect, rect_contains};

verus! {

/// Interactive state of a breadcrumb trail.
#[derive(Debug, PartialEq, Eq)]
pub struct BreadcrumbState {
    /// The selected segment, if any.
    pub selected: Option<usize>,
    /// The hovered segment, if any.
    pub hovered: Option<usize>,
    /// The label cells of each segment drawn in the last render.
    pub item_rects: Vec<(usize, Rect)>,
    /// The dropdown indicator cells of each segment drawn in the last render.
    pub dropdown_rects: Vec<(usize, Rect)>,
    /// The cells of the ellipsis drawn in the last render, if any.
    pub ellipsis_rect: Option<Rect>,
    /// The area of the last render.
    pub rendered_area: Rect,
}

/// The selection after moving to the next segment of a trail of `total`:
/// the first one when nothing is selected, never past the last one.
pub open spec fn next_selection(selected: Option<usize>, total: usize) -> Option<usize> {
    if total == 0 {
        None
    } else {
        match selected {
            Some(c) => Some(
                if c + 1 < total {
                    (c + 1) as usize
                } else {
                    (total - 1) as usize
                },
            ),
            None => Some(0),
        }
    }
}

/// The selection after moving to the previous segment of a trail of `total`:
/// the last one when nothing is selected, never before the first one.
pub open spec fn previous_selection(selected: Option<usize>, total: usize) -> Option<usize> {
    if total == 0 {
        None
    } else {
        match selected {
            Some(c) => Some(
                if c > 0 {
                    (c - 1) as usize
                } else {
                    0
                },
            ),
            None => Some((total - 1) as usize),
        }
    }
}

/// The selection after moving to the last segment of a trail of `total`.
pub open spec fn last_selection(total: usize) -> Option<usize> {
    if total == 0 {
        None
    } else {
        Some((total - 1) as usize)
    }
}

/// The index attached to the first rectangle that holds the point, if any.
pub open spec fn hit_index(rects: Seq<(usize, Rect)>, x: u16, y: u16) -> Option<usize>
    decreases rects.len(),
{
    if rects.len() == 0 {
        None
    } else if rect_contains(rects[0].1, x, y) {
        Some(rects[0].0)
    } else {
        hit_index(rects.drop_first(), x, y)
    }
}

/// The index attached to the first rectangle of `rects` holding `(x, y)`.
fn first_hit(rects: &Vec<(usize, Rect)>, x: u16, y: u16) -> (r: Option<usize>)
    ensures
        r == hit_index(rects@, x, y),
{
    let n = rects.len();
    assert(rects@.skip(0) =~= rects@);
    for i in 0..n
        invariant
            n == rects@.len(),
            hit_index(rects@, x, y) == hit_index(rects@.skip(i as int), x, y),
    {
        let (idx, rect) = rects[i];
        assert(rects@.skip(i as int).drop_first() =~= rects@.skip(i + 1));
        if rect.contains(x, y) {
            return Some(idx);
        }
    }
    assert(rects@.skip(n as int) =~= Seq::<(usize, Rect)>::empty());
    None
}

impl BreadcrumbState {
    /// The state holds no selection, no hover and no cached cells.
    pub open spec fn is_fresh(self) -> bool {
        &&& self.selected is None
        &&& self.hovered is None
        &&& self.item_rects@.len() == 0
        &&& self.dropdown_rects@.len() == 0
        &&& self.ellipsis_rect is None
        &&& self.rendered_area == Rect { x: 0, y: 0, width: 0, height: 0 }
    }

    /// `new` is `old` with only the selection changed, to `selected`.
    pub open spec fn with_selection(new: Self, old: Self, selected: Option<usize>) -> bool {
        &&& new.selected == selected
        &&& new.hovered == old.hovered
        &&& new.item_rects@ == old.item_rects@
        &&& new.dropdown_rects@ == old.dropdown_rects@
        &&& new.ellipsis_rect == old.ellipsis_rect
        &&& new.rendered_area == old.rendered_area
    }

    /// A new state with nothing selected and nothing cached.
    pub fn new() -> (s: Self)
        ensures
            s.is_fresh(),
    {
        BreadcrumbState {
            selected: None,
            hovered: None,
            item_rects: Vec::new(),
            dropdown_rects: Vec::new(),
            ellipsis_rect: None,
            rendered_area: Rect::new(0, 0, 0, 0),
        }
    }

    /// Sets the selected segment.
    pub fn select(&mut self, index: Option<usize>)
        ensures
            Self::with_selection(*final(self), *old(self), index),
    {
        self.selected = index;
    }

    /// The selected segment, if any.
    pub fn selected(&self) -> (r: Option<usize>)
        ensures
            r == self.selected,
    {
        self.selected
    }

    /// Moves the selection to the next segment of a trail of `total_items`:
    /// the first one when nothing is selected, clamped at the last one; no
    /// selection when the trail is empty.
    pub fn select_next(&mut self, total_items: usize)
        ensures
            Self::with_selection(*final(self), *old(self), next_selection(old(self).selected, total_items)),
    {
        if total_items == 0 {
            self.selected = None;
            return;
        }
        self.selected = match self.selected {
            Some(curr) => Some(
                if curr < total_items - 1 {
                    curr + 1
                } else {
                    total_items - 1
                },
            ),
            None => Some(0),
        };
    }

    /// Moves the selection to the previous segment of a trail of
    /// `total_items`: the last one when nothing is selected, clamped at the
    /// first one; no selection when the trail is empty.
    pub fn select_previous(&mut self, total_items: usize)
        ensures
            Self::with_selection(*final(self), *old(self), previous_selection(old(self).selected, total_items)),
    {
        if total_items == 0 {
            self.selected = None;
            return;
        }
        self.selected = match self.selected {
            Some(curr) => Some(curr.saturating_sub(1)),
            None => Some(total_items - 1),
        };
    }

    /// Selects the first segment.
    pub fn select_first(&mut self)
        ensures
            Self::with_selection(*final(self), *old(self), Some(0)),
    {
        self.selected = Some(0);
    }

    /// Selects the last segment of a trail of `total_items`; no selection when
    /// the trail is empty.
    pub fn select_last(&mut self, total_items: usize)
        ensures
            Self::with_selection(*final(self), *old(self), last_selection(total_items)),
    {
        if total_items == 0 {
            self.selected = None;
        } else {
            self.selected = Some(total_items - 1);
        }
    }

    /// The segment whose label was drawn at column `column` and row `row` in
    /// the last render (the first recorded one, if several).
    pub fn item_at(&self, column: u16, row: u16) -> (r: Option<usize>)
        ensures
            r == hit_index(self.item_rects@, column, row),
    {
        first_hit(&self.item_rects, column, row)
    }

    /// The segment whose dropdown indicator was drawn at column `column` and
    /// row `row` in the last render.
    pub fn dropdown_at(&self, column: u16, row: u16) -> (r: Option<usize>)
        ensures
            r == hit_index(self.dropdown_rects@, column, row),
    {
        first_hit(&self.dropdown_rects, column, row)
    }

    /// Whether the ellipsis was drawn at column `column` and row `row` in the
    /// last render.
    pub fn is_ellipsis_at(&self, column: u16, row: u16) -> (b: bool)
        ensures
            b == (self.ellipsis_rect matches Some(r) && rect_contains(r, column, row)),
    {
        match self.ellipsis_rect {
            Some(rect) => rect.contains(column, row),
            None => false,
        }
    }

    /// Forgets the cells of the last render before a render into `area`.
    pub fn reset_cache(&mut self, area: Rect)
        ensures
            final(self).selected == old(self).selected,
            final(self).hovered == old(self).hovered,
            final(self).item_rects@.len() == 0,
            final(self).dropdown_rects@.len() == 0,
            final(self).ellipsis_rect is None,
            final(self).rendered_area == area,
    {
        self.item_rects = Vec::new();
        self.dropdown_rects = Vec::new();
        self.ellipsis_rect = None;
        self.rendered_area = area;
    }
}

impl Default for BreadcrumbState {
    /// The default state has nothing selected and nothing cached.
    fn default() -> (s: Self)
        ensures
            s.is_fresh(),
    {
        Self::new()
    }
}

} // verus!
