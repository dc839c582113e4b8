//! The breadcrumb widget: its configuration and builder, and the render
//! planner that turns a resolved layout into the cells to draw and the cells
//! of each segment, dropdown indicator and ellipsis for hit-testing.

use vstd::prelude::*;
use vstd::string::*;
use ratatui::style::Style;
use crate::geometry::{Alignment, BOLD, DIM, REVERSED, Rect, modifier_style, style_with_modifiers};
use crate::item::BreadcrumbItem;
use crate::separator::BreadcrumbSeparator;
use crate::strategy::{TruncateStrategy, is_middle, default_ellipsis};

verus! {

/// A hierarchical breadcrumb trail widget.
pub struct Breadcrumb {
    /// The segments, root first.
    pub items: Vec<BreadcrumbItem>,
    /// The separator drawn between segments.
    pub separator: BreadcrumbSeparator,
    /// The overflow strategy.
    pub strategy: TruncateStrategy,
    /// Base style of the widget.
    pub style: Style,
    /// Style of unselected segments without their own.
    pub item_style: Style,
    /// Style of the selected segment when it has none of its own.
    pub selected_style: Style,
    /// Style of the last (active) segment when not selected.
    pub active_style: Option<Style>,
    /// Style of dropdown indicators.
    pub dropdown_style: Style,
    /// Default dropdown symbol.
    pub dropdown_symbol: String,
    /// Style of the ellipsis.
    pub ellipsis_style: Style,
    /// Horizontal alignment inside the area.
    pub alignment: Alignment,
}

impl Breadcrumb {
    /// Every setting but the items has its default value: chevron separator,
    /// `Middle` strategy, default base and item styles, reversed selection,
    /// bold active segment, dimmed dropdowns and ellipsis, `▾`, left aligned.
    pub open spec fn has_default_settings(self) -> bool {
        &&& self.separator.is_preset(seq!['❯'])
        &&& self.has_default_look()
    }

    /// Every setting but the items and the separator has its default value.
    pub open spec fn has_default_look(self) -> bool {
        &&& is_middle(self.strategy, 1, 2, default_ellipsis())
        &&& self.style == modifier_style(0)
        &&& self.item_style == modifier_style(0)
        &&& self.selected_style == modifier_style(REVERSED)
        &&& self.active_style == Some(modifier_style(BOLD))
        &&& self.dropdown_style == modifier_style(DIM)
        &&& self.dropdown_symbol@ == seq!['▾']
        &&& self.ellipsis_style == modifier_style(DIM)
        &&& self.alignment == Alignment::Left
    }

    /// A trail of the given segments with default settings.
    pub fn new(items: Vec<BreadcrumbItem>) -> (b: Self)
        ensures
            b.items@ == items@,
            b.has_default_settings(),
    {
        let sym = "▾";
        proof {
            reveal_strlit("▾");
            assert(sym@ =~= seq!['▾']);
        }
        Breadcrumb {
            items,
            separator: BreadcrumbSeparator::chevron(),
            strategy: TruncateStrategy::middle(),
            style: style_with_modifiers(0),
            item_style: style_with_modifiers(0),
            selected_style: style_with_modifiers(REVERSED),
            active_style: Some(style_with_modifiers(BOLD)),
            dropdown_style: style_with_modifiers(DIM),
            dropdown_symbol: String::from_str(sym),
            ellipsis_style: style_with_modifiers(DIM),
            alignment: Alignment::Left,
        }
    }

    /// Sets the separator.
    pub fn separator(self, separator: BreadcrumbSeparator) -> (b: Self)
        ensures
            b == (Breadcrumb { separator, ..self }),
    {
        Breadcrumb { separator, ..self }
    }

    /// Sets the overflow strategy.
    pub fn strategy(self, strategy: TruncateStrategy) -> (b: Self)
        ensures
            b == (Breadcrumb { strategy, ..self }),
    {
        Breadcrumb { strategy, ..self }
    }

    /// Sets the base style.
    pub fn style(self, style: Style) -> (b: Self)
        ensures
            b == (Breadcrumb { style, ..self }),
    {
        Breadcrumb { style, ..self }
    }

    /// Sets the style of unselected segments.
    pub fn item_style(self, style: Style) -> (b: Self)
        ensures
            b == (Breadcrumb { item_style: style, ..self }),
    {
        Breadcrumb { item_style: style, ..self }
    }

    /// Sets the style of the selected segment.
    pub fn selected_style(self, style: Style) -> (b: Self)
        ensures
            b == (Breadcrumb { selected_style: style, ..self }),
    {
        Breadcrumb { selected_style: style, ..self }
    }

    /// Sets the style of the last (active) segment.
    pub fn active_style(self, style: Style) -> (b: Self)
        ensures
            b == (Breadcrumb { active_style: Some(style), ..self }),
    {
        Breadcrumb { active_style: Some(style), ..self }
    }

    /// Sets the default dropdown symbol.
    pub fn dropdown_symbol(self, symbol: &str) -> (b: Self)
        ensures
            b.dropdown_symbol@ == symbol@,
            b.items == self.items,
            b.separator == self.separator,
            b.strategy == self.strategy,
            b.style == self.style,
            b.item_style == self.item_style,
            b.selected_style == self.selected_style,
            b.active_style == self.active_style,
            b.dropdown_style == self.dropdown_style,
            b.ellipsis_style == self.ellipsis_style,
            b.alignment == self.alignment,
    {
        Breadcrumb { dropdown_symbol: String::from_str(symbol), ..self }
    }

    /// Sets the style of dropdown indicators.
    pub fn dropdown_style(self, style: Style) -> (b: Self)
        ensures
            b == (Breadcrumb { dropdown_style: style, ..self }),
    {
        Breadcrumb { dropdown_style: style, ..self }
    }

    /// Sets the style of the ellipsis.
    pub fn ellipsis_style(self, style: Style) -> (b: Self)
        ensures
            b == (Breadcrumb { ellipsis_style: style, ..self }),
    {
        Breadcrumb { ellipsis_style: style, ..self }
    }

    /// Sets the horizontal alignment.
    pub fn alignment(self, alignment: Alignment) -> (b: Self)
        ensures
            b == (Breadcrumb { alignment, ..self }),
    {
        Breadcrumb { alignment, ..self }
    }
}

impl Default for Breadcrumb {
    /// An empty trail with default settings.
    fn default() -> (b: Self)
        ensures
            b.items@.len() == 0,
            b.has_default_settings(),
    {
        Breadcrumb::new(Vec::new())
    }
}

} // verus!
