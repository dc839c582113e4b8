//! Breadcrumb segments: their labels, styles and dropdown indicators, and the
//! column widths they occupy.

use vstd::prelude::*;
use vstd::string::*;
use ratatui::style::Style;
use crate::geometry::{modifier_style, style_with_modifiers};
use crate::text::{add_cols, display_width, lemma_sat_assoc, line_spans, raw_line_spans, sat, str_width};

verus! {

/// A run of label text in one style.
#[derive(Debug, PartialEq, Eq)]
pub struct LabelSpan {
    /// The text of the span.
    pub content: String,
    /// The style of the span.
    pub style: Style,
}

/// The text of a breadcrumb segment, as a sequence of styled spans.
#[derive(Debug, PartialEq, Eq)]
pub struct Label {
    /// The spans, left to right.
    pub spans: Vec<LabelSpan>,
}

/// An individual segment in a breadcrumb trail.
#[derive(Debug, PartialEq, Eq)]
pub struct BreadcrumbItem {
    /// The text and styled spans of the segment.
    pub label: Label,
    /// Style override of the segment when it is not selected.
    pub style: Option<Style>,
    /// Style override of the segment when it is selected.
    pub selected_style: Option<Style>,
    /// Whether the segment shows a dropdown indicator.
    pub has_dropdown: bool,
    /// Dropdown symbol override of the segment (e.g. `▾`, `⌄`, `▼`).
    pub dropdown_symbol: Option<String>,
}

impl Clone for LabelSpan {
    fn clone(&self) -> (r: Self)
        ensures
            r.content@ == self.content@,
            r.style == self.style,
    {
        LabelSpan { content: self.content.clone(), style: self.style }
    }
}

/// The texts of a sequence of spans.
pub open spec fn span_texts(spans: Seq<LabelSpan>) -> Seq<Seq<char>> {
    spans.map_values(|s: LabelSpan| s.content@)
}

/// The concatenation of a sequence of texts.
pub open spec fn concat_texts(texts: Seq<Seq<char>>) -> Seq<char>
    decreases texts.len(),
{
    if texts.len() == 0 {
        Seq::empty()
    } else {
        concat_texts(texts.drop_last()) + texts.last()
    }
}

/// The sum of the display widths of a sequence of texts.
pub open spec fn texts_width(texts: Seq<Seq<char>>) -> int
    decreases texts.len(),
{
    if texts.len() == 0 {
        0
    } else {
        texts_width(texts.drop_last()) + display_width(texts.last())
    }
}

impl Label {
    /// The texts of the spans.
    pub open spec fn texts(self) -> Seq<Seq<char>> {
        span_texts(self.spans@)
    }

    /// The whole text of the label.
    pub open spec fn text(self) -> Seq<char> {
        concat_texts(self.texts())
    }

    /// The column width of the label: the sum of its spans' widths, capped at
    /// `usize::MAX`.
    pub open spec fn width_spec(self) -> int {
        sat(texts_width(self.texts()))
    }

    /// The column width of the label.
    pub fn width(&self) -> (w: usize)
        ensures
            w == self.width_spec(),
    {
        let mut acc: usize = 0;
        let n = self.spans.len();
        for i in 0..n
            invariant
                n == self.spans@.len(),
                acc == sat(texts_width(self.texts().take(i as int))),
        {
            let w = str_width(self.spans[i].content.as_str());
            proof {
                let t = self.texts();
                assert(t.take(i + 1).drop_last() =~= t.take(i as int));
                lemma_sat_assoc(texts_width(t.take(i as int)), w as int);
            }
            acc = add_cols(acc, w);
        }
        proof {
            assert(self.texts().take(n as int) =~= self.texts());
        }
        acc
    }

    /// The whole text of the label, its spans' texts joined.
    pub fn text_string(&self) -> (s: String)
        ensures
            s@ == self.text(),
    {
        let mut s = String::new();
        let n = self.spans.len();
        for i in 0..n
            invariant
                n == self.spans@.len(),
                s@ == concat_texts(self.texts().take(i as int)),
        {
            s.append(self.spans[i].content.as_str());
            proof {
                let t = self.texts();
                assert(t.take(i + 1).drop_last() =~= t.take(i as int));
            }
        }
        proof {
            assert(self.texts().take(n as int) =~= self.texts());
        }
        s
    }

    /// A label holding the spans that `Line::raw` of `ratatui` makes of
    /// `text`, each in the default style.
    pub fn raw(text: &str) -> (l: Label)
        ensures
            l.texts() == line_spans(text@),
            forall|i: int| 0 <= i < l.spans@.len() ==> #[trigger] l.spans@[i].style == modifier_style(0),
    {
        let parts = raw_line_spans(text);
        let mut spans: Vec<LabelSpan> = Vec::new();
        let n = parts.len();
        for i in 0..n
            invariant
                n == parts@.len(),
                spans@.len() == i,
                forall|j: int| 0 <= j < i ==> #[trigger] spans@[j].content@ == parts@[j]@,
                forall|j: int| 0 <= j < i ==> #[trigger] spans@[j].style == modifier_style(0),
        {
            let content = parts[i].clone();
            spans.push(LabelSpan { content, style: style_with_modifiers(0) });
        }
        let l = Label { spans };
        proof {
            assert(l.texts() =~= parts@.map_values(|s: String| s@));
        }
        l
    }
}

/// The text of the dropdown symbol an item shows: its own, or the default.
pub open spec fn dropdown_text(item: BreadcrumbItem, default_symbol: Seq<char>) -> Seq<char> {
    match item.dropdown_symbol {
        Some(s) => s@,
        None => default_symbol,
    }
}

/// The columns an item occupies when its label is `label_width` columns wide:
/// the label, then, with a dropdown, one space and the symbol (capped at
/// `usize::MAX`).
pub open spec fn item_width_with(item: BreadcrumbItem, label_width: int, default_symbol: Seq<char>) -> int {
    if item.has_dropdown {
        sat(label_width + 1 + display_width(dropdown_text(item, default_symbol)))
    } else {
        label_width
    }
}

impl BreadcrumbItem {
    /// The item's total column width with its own label.
    pub open spec fn total_width_spec(self, default_symbol: Seq<char>) -> int {
        item_width_with(self, self.label.width_spec(), default_symbol)
    }

    /// An item labelled with `label` (split as `Line::raw` splits it), with no
    /// style overrides and no dropdown.
    pub fn new(label: &str) -> (item: Self)
        ensures
            item.label.texts() == line_spans(label@),
            forall|i: int| 0 <= i < item.label.spans@.len() ==> #[trigger] item.label.spans@[i].style
                == modifier_style(0),
            item.style is None,
            item.selected_style is None,
            !item.has_dropdown,
            item.dropdown_symbol is None,
    {
        BreadcrumbItem {
            label: Label::raw(label),
            style: None,
            selected_style: None,
            has_dropdown: false,
            dropdown_symbol: None,
        }
    }

    /// An item with the given label and a dropdown indicator.
    pub fn with_dropdown(label: &str) -> (item: Self)
        ensures
            item.label.texts() == line_spans(label@),
            forall|i: int| 0 <= i < item.label.spans@.len() ==> #[trigger] item.label.spans@[i].style
                == modifier_style(0),
            item.style is None,
            item.selected_style is None,
            item.has_dropdown,
            item.dropdown_symbol is None,
    {
        BreadcrumbItem {
            label: Label::raw(label),
            style: None,
            selected_style: None,
            has_dropdown: true,
            dropdown_symbol: None,
        }
    }

    /// An item with an already built label and no overrides.
    pub fn from_label(label: Label) -> (item: Self)
        ensures
            item.label == label,
            item.style is None,
            item.selected_style is None,
            !item.has_dropdown,
            item.dropdown_symbol is None,
    {
        BreadcrumbItem { label, style: None, selected_style: None, has_dropdown: false, dropdown_symbol: None }
    }

    /// Sets the style of the item when not selected.
    pub fn style(self, style: Style) -> (item: Self)
        ensures
            item == (BreadcrumbItem { style: Some(style), ..self }),
    {
        BreadcrumbItem { style: Some(style), ..self }
    }

    /// Sets the style of the item when selected.
    pub fn selected_style(self, style: Style) -> (item: Self)
        ensures
            item == (BreadcrumbItem { selected_style: Some(style), ..self }),
    {
        BreadcrumbItem { selected_style: Some(style), ..self }
    }

    /// Sets whether the item shows a dropdown indicator.
    pub fn dropdown(self, has_dropdown: bool) -> (item: Self)
        ensures
            item == (BreadcrumbItem { has_dropdown, ..self }),
    {
        BreadcrumbItem { has_dropdown, ..self }
    }

    /// Sets the item's own dropdown symbol.
    pub fn dropdown_symbol(self, symbol: &str) -> (item: Self)
        ensures
            item.label == self.label,
            item.style == self.style,
            item.selected_style == self.selected_style,
            item.has_dropdown == self.has_dropdown,
            item.dropdown_symbol matches Some(s) && s@ == symbol@,
    {
        BreadcrumbItem { dropdown_symbol: Some(String::from_str(symbol)), ..self }
    }

    /// The column width of the item's label.
    pub fn label_width(&self) -> (w: usize)
        ensures
            w == self.label.width_spec(),
    {
        self.label.width()
    }

    /// The column width of the item with its dropdown indicator, if any: the
    /// label, one space and the symbol (its own, or `default_dropdown_symbol`).
    pub fn total_width(&self, default_dropdown_symbol: &str) -> (w: usize)
        ensures
            w == self.total_width_spec(default_dropdown_symbol@),
    {
        let base = self.label_width();
        self.width_with_label(base, default_dropdown_symbol)
    }

    /// The column width of the item when its label is `label_width` columns
    /// wide.
    pub fn width_with_label(&self, label_width: usize, default_dropdown_symbol: &str) -> (w: usize)
        ensures
            w == item_width_with(*self, label_width as int, default_dropdown_symbol@),
    {
        if self.has_dropdown {
            let sym_w = match &self.dropdown_symbol {
                Some(s) => str_width(s.as_str()),
                None => str_width(default_dropdown_symbol),
            };
            let with_space = add_cols(label_width, 1);
            proof {
                lemma_sat_assoc(label_width + 1, sym_w as int);
            }
            add_cols(with_space, sym_w)
        } else {
            label_width
        }
    }
}

impl Clone for BreadcrumbItem {
    fn clone(&self) -> (r: Self)
        ensures
            r.label.texts() == self.label.texts(),
            r.label.spans@.len() == self.label.spans@.len(),
            forall|i: int| 0 <= i < r.label.spans@.len() ==> #[trigger] r.label.spans@[i].style == self.label.spans@[i].style,
            r.style == self.style,
            r.selected_style == self.selected_style,
            r.has_dropdown == self.has_dropdown,
            r.dropdown_symbol matches Some(s) ==> self.dropdown_symbol matches Some(t) && s@ == t@,
            r.dropdown_symbol is None <==> self.dropdown_symbol is None,
    {
        let mut spans: Vec<LabelSpan> = Vec::new();
        let n = self.label.spans.len();
        for i in 0..n
            invariant
                n == self.label.spans@.len(),
                spans@.len() == i,
                forall|j: int| 0 <= j < i ==> #[trigger] spans@[j].content@ == self.label.spans@[j].content@,
                forall|j: int| 0 <= j < i ==> #[trigger] spans@[j].style == self.label.spans@[j].style,
        {
            spans.push(self.label.spans[i].clone());
        }
        let dropdown_symbol = match &self.dropdown_symbol {
            Some(s) => Some(s.clone()),
            None => None,
        };
        let r = BreadcrumbItem {
            label: Label { spans },
            style: self.style,
            selected_style: self.selected_style,
            has_dropdown: self.has_dropdown,
            dropdown_symbol,
        };
        proof {
            assert(r.label.texts() =~= self.label.texts());
        }
        r
    }
}

proof fn lemma_texts_width_nonneg(texts: Seq<Seq<char>>)
    ensures
        0 <= texts_width(texts),
    decreases texts.len(),
{
    if texts.len() > 0 {
        lemma_texts_width_nonneg(texts.drop_last());
    }
}

/// A label is never less than zero columns wide.
pub proof fn lemma_label_width_nonneg(label: Label)
    ensures
        0 <= label.width_spec() <= usize::MAX,
{
    lemma_texts_width_nonneg(label.texts());
}

} // verus!
