//! Render planning: the cells a trail draws into its area, each character at
//! its display-width column from the aligned start column and clipped at the
//! area's right edge, and the cells of each segment label, dropdown indicator
//! and ellipsis drawn.

use vstd::prelude::*;
use ratatui::style::Style;
use crate::geometry::{Alignment, Rect, sat_u16};
use crate::item::{LabelSpan, dropdown_text};
use crate::layout_spec::{
    ElementView, element_cost, indices_below, item_index_ok, layout, layout_cost, lemma_layout_cost_nonneg,
    lemma_layout_indices,
};
use crate::state::BreadcrumbState;
use crate::text::{add_cols, chars_of, display_width, lemma_sat_assoc, sat, str_width};
use crate::truncate::{RenderElement, elems_view, resolve_layout};
use crate::widget::Breadcrumb;

verus! {

/// One cell to draw: a character and the styles to apply to the cell, first
/// `style`, then `overlay` if any.
#[derive(Debug, Clone, Copy, PartialEq, Eq)]
pub struct PlannedCell {
    /// Column of the cell.
    pub x: u16,
    /// Row of the cell.
    pub y: u16,
    /// The character drawn.
    pub symbol: char,
    /// The style applied first.
    pub style: Style,
    /// The style applied over it, if any.
    pub overlay: Option<Style>,
}

/// What a render draws and where its parts were drawn.
#[derive(Debug, PartialEq, Eq)]
pub struct RenderPlan {
    /// The cells to draw, left to right.
    pub cells: Vec<PlannedCell>,
    /// The label cells of each segment drawn.
    pub item_rects: Vec<(usize, Rect)>,
    /// The dropdown indicator cells of each segment drawn.
    pub dropdown_rects: Vec<(usize, Rect)>,
    /// The cells of the ellipsis, if drawn.
    pub ellipsis_rect: Option<Rect>,
}

/// `a` or `b`, whichever is smaller.
pub open spec fn min_int(a: int, b: int) -> int {
    if a < b {
        a
    } else {
        b
    }
}

/// `n` spaces.
pub open spec fn spaces(n: int) -> Seq<char> {
    Seq::new(n as nat, |k: int| ' ')
}

/// A drawn cell as plain values: column, row, character, style, overlay.
pub type CellView = (u16, u16, char, Style, Option<Style>);

/// The plain values of each cell.
pub open spec fn cells_view(cells: Seq<PlannedCell>) -> Seq<CellView> {
    Seq::new(cells.len(), |k: int| (cells[k].x, cells[k].y, cells[k].symbol, cells[k].style, cells[k].overlay))
}

/// A run of text drawn in one style: a text whose characters sit at their
/// display-width offsets, or padding whose spaces take one column each.
pub struct Piece {
    /// The characters.
    pub text: Seq<char>,
    /// The style applied first.
    pub style: Style,
    /// The style applied over it, if any.
    pub overlay: Option<Style>,
    /// Whether the piece is padding.
    pub pad: bool,
}

/// A text piece.
pub open spec fn text_piece(text: Seq<char>, style: Style, overlay: Option<Style>) -> Piece {
    Piece { text, style, overlay, pad: false }
}

/// A piece of `n` padding spaces.
pub open spec fn pad_piece(n: int, style: Style) -> Piece {
    Piece { text: spaces(n), style, overlay: None, pad: true }
}

/// The columns a piece takes: the display width of a text, one per space of
/// padding.
pub open spec fn piece_width(p: Piece) -> int {
    if p.pad {
        p.text.len() as int
    } else {
        display_width(p.text) as int
    }
}

/// The column offset of character `k` within its piece: the display width
/// of the characters before it.
pub open spec fn char_offset(p: Piece, k: int) -> int {
    if p.pad {
        k
    } else {
        display_width(p.text.take(k)) as int
    }
}

/// Character `k` of a piece drawn from column `x` is drawn: it starts before
/// the right edge `max_x` and ends at it or before.
pub open spec fn char_drawn(p: Piece, x: int, max_x: int, k: int) -> bool {
    x + char_offset(p, k) < max_x && x + char_offset(p, k + 1) <= max_x
}

/// The cells of the first `k` characters of a piece drawn from column `x`.
pub open spec fn piece_cells(p: Piece, x: int, max_x: int, row: u16, k: int) -> Seq<CellView>
    decreases k,
{
    if k <= 0 {
        Seq::empty()
    } else {
        piece_cells(p, x, max_x, row, k - 1) + if char_drawn(p, x, max_x, k - 1) {
            seq![((x + char_offset(p, k - 1)) as u16, row, p.text[k - 1], p.style, p.overlay)]
        } else {
            Seq::empty()
        }
    }
}

/// Where drawing continues after a piece drawn from column `x`: past it,
/// or at the right edge when it does not fit.
pub open spec fn advance(p: Piece, x: int, max_x: int) -> int {
    if x + piece_width(p) <= max_x {
        x + piece_width(p)
    } else {
        max_x
    }
}

/// The columns a sequence of pieces takes.
pub open spec fn pieces_width(ps: Seq<Piece>) -> int
    decreases ps.len(),
{
    if ps.len() == 0 {
        0
    } else {
        pieces_width(ps.drop_last()) + piece_width(ps.last())
    }
}

/// Where drawing continues after a sequence of pieces drawn from `x`.
pub open spec fn cursor(ps: Seq<Piece>, x: int, max_x: int) -> int
    decreases ps.len(),
{
    if ps.len() == 0 {
        x
    } else {
        advance(ps.last(), cursor(ps.drop_last(), x, max_x), max_x)
    }
}

/// The cells of a sequence of pieces drawn one after another from `x`.
pub open spec fn pieces_cells(ps: Seq<Piece>, x: int, max_x: int, row: u16) -> Seq<CellView>
    decreases ps.len(),
{
    if ps.len() == 0 {
        Seq::empty()
    } else {
        let c = cursor(ps.drop_last(), x, max_x);
        pieces_cells(ps.drop_last(), x, max_x, row) + piece_cells(ps.last(), c, max_x, row, ps.last().text.len() as int)
    }
}

/// The pieces of a label's spans: unselected, each span's style over `base`;
/// selected, `base` over each span's style.
pub open spec fn span_pieces(spans: Seq<LabelSpan>, base: Style, selected: bool) -> Seq<Piece>
    decreases spans.len(),
{
    if spans.len() == 0 {
        Seq::empty()
    } else {
        let s = spans.last();
        span_pieces(spans.drop_last(), base, selected).push(
            if selected {
                text_piece(s.content@, s.style, Some(base))
            } else {
                text_piece(s.content@, base, Some(s.style))
            },
        )
    }
}

/// Drawing `ps` from `x` turned the cells `start` into `cv` and left the
/// cursor at `nx`.
pub open spec fn drawn(cv: Seq<CellView>, nx: int, start: Seq<CellView>, x: int, max_x: int, row: u16, ps: Seq<Piece>) -> bool {
    &&& cv == start + pieces_cells(ps, x, max_x, row)
    &&& nx == cursor(ps, x, max_x)
}

/// Pieces take no fewer than zero columns.
pub proof fn lemma_pieces_width_nonneg(ps: Seq<Piece>)
    ensures
        0 <= pieces_width(ps),
    decreases ps.len(),
{
    if ps.len() > 0 {
        lemma_pieces_width_nonneg(ps.drop_last());
    }
}

/// The cursor after pieces drawn from `x` is past all of them, or the right
/// edge when they do not all fit.
pub proof fn lemma_cursor_closed(ps: Seq<Piece>, x: int, max_x: int)
    requires
        x <= max_x,
    ensures
        cursor(ps, x, max_x) == if x + pieces_width(ps) <= max_x {
            x + pieces_width(ps)
        } else {
            max_x
        },
    decreases ps.len(),
{
    if ps.len() > 0 {
        lemma_cursor_closed(ps.drop_last(), x, max_x);
        lemma_pieces_width_nonneg(ps.drop_last());
    }
}

/// Drawing `a + b` is drawing `a`, then `b` from where `a` left the cursor.
pub proof fn lemma_pieces_concat(a: Seq<Piece>, b: Seq<Piece>, x: int, max_x: int, row: u16)
    ensures
        cursor(a + b, x, max_x) == cursor(b, cursor(a, x, max_x), max_x),
        pieces_cells(a + b, x, max_x, row) == pieces_cells(a, x, max_x, row) + pieces_cells(
            b,
            cursor(a, x, max_x),
            max_x,
            row,
        ),
        pieces_width(a + b) == pieces_width(a) + pieces_width(b),
    decreases b.len(),
{
    if b.len() == 0 {
        assert(a + b =~= a);
    } else {
        lemma_pieces_concat(a, b.drop_last(), x, max_x, row);
        assert((a + b).drop_last() =~= a + b.drop_last());
        assert((a + b).last() == b.last());
    }
}

/// At the right edge a piece draws nothing.
proof fn lemma_piece_at_edge(p: Piece, max_x: int, row: u16, k: int)
    ensures
        piece_cells(p, max_x, max_x, row, k) == Seq::<CellView>::empty(),
    decreases k,
{
    if k > 0 {
        lemma_piece_at_edge(p, max_x, row, k - 1);
        assert(!char_drawn(p, max_x, max_x, k - 1));
    }
}

/// From the right edge, pieces draw nothing and the cursor stays there.
pub proof fn lemma_pieces_at_edge(ps: Seq<Piece>, max_x: int, row: u16)
    ensures
        cursor(ps, max_x, max_x) == max_x,
        pieces_cells(ps, max_x, max_x, row) == Seq::<CellView>::empty(),
    decreases ps.len(),
{
    if ps.len() > 0 {
        lemma_pieces_at_edge(ps.drop_last(), max_x, row);
        lemma_piece_at_edge(ps.last(), max_x, row, ps.last().text.len() as int);
        assert(Seq::<CellView>::empty() + Seq::<CellView>::empty() =~= Seq::<CellView>::empty());
    }
}

/// Drawing one more piece after `ps`.
proof fn lemma_drawn_push(
    cv1: Seq<CellView>,
    x1: int,
    cv2: Seq<CellView>,
    x2: int,
    start: Seq<CellView>,
    x: int,
    max_x: int,
    row: u16,
    ps: Seq<Piece>,
    p: Piece,
)
    requires
        drawn(cv1, x1, start, x, max_x, row, ps),
        cv2 == cv1 + piece_cells(p, x1, max_x, row, p.text.len() as int),
        x2 == advance(p, x1, max_x),
    ensures
        drawn(cv2, x2, start, x, max_x, row, ps.push(p)),
{
    assert(ps.push(p).drop_last() =~= ps);
    assert(start + pieces_cells(ps, x, max_x, row) + piece_cells(p, x1, max_x, row, p.text.len() as int) =~= start
        + (pieces_cells(ps, x, max_x, row) + piece_cells(p, x1, max_x, row, p.text.len() as int)));
}

/// Drawing `a` and then `b` from where it stopped is drawing `a + b`.
proof fn lemma_drawn_concat(
    cv1: Seq<CellView>,
    x1: int,
    cv2: Seq<CellView>,
    x2: int,
    start: Seq<CellView>,
    x: int,
    max_x: int,
    row: u16,
    a: Seq<Piece>,
    b: Seq<Piece>,
)
    requires
        drawn(cv1, x1, start, x, max_x, row, a),
        drawn(cv2, x2, cv1, x1, max_x, row, b),
    ensures
        drawn(cv2, x2, start, x, max_x, row, a + b),
{
    lemma_pieces_concat(a, b, x, max_x, row);
    assert(start + pieces_cells(a, x, max_x, row) + pieces_cells(b, x1, max_x, row) =~= start + (pieces_cells(
        a,
        x,
        max_x,
        row,
    ) + pieces_cells(b, x1, max_x, row)));
}

/// Drawing no pieces changes nothing.
proof fn lemma_drawn_empty(cv: Seq<CellView>, x: int, max_x: int, row: u16)
    ensures
        drawn(cv, x, cv, x, max_x, row, Seq::<Piece>::empty()),
{
    assert(cv + Seq::<CellView>::empty() =~= cv);
}

/// Drawing a single piece.
proof fn lemma_drawn_single(cv: Seq<CellView>, nx: int, start: Seq<CellView>, x: int, max_x: int, row: u16, p: Piece)
    requires
        cv == start + piece_cells(p, x, max_x, row, p.text.len() as int),
        nx == advance(p, x, max_x),
    ensures
        drawn(cv, nx, start, x, max_x, row, seq![p]),
{
    lemma_drawn_empty(start, x, max_x, row);
    assert(Seq::<Piece>::empty().push(p) =~= seq![p]);
    lemma_drawn_push(start, x, cv, nx, start, x, max_x, row, Seq::<Piece>::empty(), p);
}

/// Pushing a cell pushes its plain values.
proof fn lemma_cells_push(v: Seq<PlannedCell>, c: PlannedCell)
    ensures
        cells_view(v.push(c)) == cells_view(v).push((c.x, c.y, c.symbol, c.style, c.overlay)),
{
    assert(cells_view(v.push(c)) =~= cells_view(v).push((c.x, c.y, c.symbol, c.style, c.overlay)));
}

/// Draws the characters of `text` at their display-width offsets from column
/// `x`, each one that fits before `max_x`.
fn paint_text(
    cells: &mut Vec<PlannedCell>,
    x: u16,
    max_x: u16,
    row: u16,
    text: &str,
    style: Style,
    overlay: Option<Style>,
) -> (nx: u16)
    requires
        x <= max_x,
    ensures
        drawn(
            cells_view(final(cells)@),
            nx as int,
            cells_view(old(cells)@),
            x as int,
            max_x as int,
            row,
            seq![text_piece(text@, style, overlay)],
        ),
{
    let ghost p = text_piece(text@, style, overlay);
    let ghost start = cells_view(cells@);
    let chars = chars_of(text);
    let n = chars.len();
    let mut before: usize = str_width(text.substring_char(0, 0));
    assert(text@.subrange(0, 0) =~= text@.take(0));
    for i in 0..n
        invariant
            n == text@.len(),
            chars@ == text@,
            x <= max_x,
            p == text_piece(text@, style, overlay),
            before == display_width(text@.take(i as int)),
            cells_view(cells@) == start + piece_cells(p, x as int, max_x as int, row, i as int),
    {
        let after = str_width(text.substring_char(0, i + 1));
        assert(text@.subrange(0, i + 1) =~= text@.take(i + 1));
        let ghost old_cells = cells_view(cells@);
        if (x as u128 + before as u128) < max_x as u128 && x as u128 + after as u128 <= max_x as u128 {
            let c = PlannedCell { x: (x as u128 + before as u128) as u16, y: row, symbol: chars[i], style, overlay };
            proof {
                lemma_cells_push(cells@, c);
            }
            cells.push(c);
        }
        assert(cells_view(cells@) =~= start + piece_cells(p, x as int, max_x as int, row, i + 1));
        before = after;
    }
    let total = str_width(text);
    assert(text@.take(n as int) =~= text@);
    let nx = if x as u128 + total as u128 <= max_x as u128 {
        (x as u128 + total as u128) as u16
    } else {
        max_x
    };
    proof {
        lemma_drawn_single(cells_view(cells@), nx as int, start, x as int, max_x as int, row, p);
    }
    nx
}

/// Draws `count` padding spaces from column `x`, each one that fits before
/// `max_x`.
fn paint_spaces(cells: &mut Vec<PlannedCell>, x: u16, max_x: u16, row: u16, count: u16, style: Style) -> (nx: u16)
    requires
        x <= max_x,
    ensures
        drawn(
            cells_view(final(cells)@),
            nx as int,
            cells_view(old(cells)@),
            x as int,
            max_x as int,
            row,
            seq![pad_piece(count as int, style)],
        ),
{
    let ghost p = pad_piece(count as int, style);
    let ghost start = cells_view(cells@);
    for i in 0..count
        invariant
            x <= max_x,
            p == pad_piece(count as int, style),
            cells_view(cells@) == start + piece_cells(p, x as int, max_x as int, row, i as int),
    {
        if (x as u32 + i as u32) < max_x as u32 {
            let c = PlannedCell { x: x + i, y: row, symbol: ' ', style, overlay: None };
            proof {
                lemma_cells_push(cells@, c);
            }
            cells.push(c);
        }
        assert(cells_view(cells@) =~= start + piece_cells(p, x as int, max_x as int, row, i + 1));
    }
    let nx = if x as u32 + count as u32 <= max_x as u32 {
        x + count
    } else {
        max_x
    };
    proof {
        lemma_drawn_single(cells_view(cells@), nx as int, start, x as int, max_x as int, row, p);
    }
    nx
}

/// Draws the spans of a label from column `x`: unselected, each span's style
/// over `base`; selected, `base` over each span's style.
fn paint_spans(
    cells: &mut Vec<PlannedCell>,
    x: u16,
    max_x: u16,
    row: u16,
    spans: &Vec<LabelSpan>,
    base: Style,
    is_selected: bool,
) -> (nx: u16)
    requires
        x <= max_x,
    ensures
        drawn(
            cells_view(final(cells)@),
            nx as int,
            cells_view(old(cells)@),
            x as int,
            max_x as int,
            row,
            span_pieces(spans@, base, is_selected),
        ),
{
    let ghost start = cells_view(cells@);
    let mut cx = x;
    let n = spans.len();
    proof {
        assert(spans@.take(0) =~= Seq::<LabelSpan>::empty());
        lemma_drawn_empty(start, x as int, max_x as int, row);
    }
    for i in 0..n
        invariant
            n == spans@.len(),
            x <= max_x,
            drawn(
                cells_view(cells@),
                cx as int,
                start,
                x as int,
                max_x as int,
                row,
                span_pieces(spans@.take(i as int), base, is_selected),
            ),
    {
        let ghost before = cells_view(cells@);
        let ghost bx = cx as int;
        proof {
            lemma_cursor_closed(span_pieces(spans@.take(i as int), base, is_selected), x as int, max_x as int);
        }
        let span = &spans[i];
        let nx = if is_selected {
            paint_text(cells, cx, max_x, row, span.content.as_str(), span.style, Some(base))
        } else {
            paint_text(cells, cx, max_x, row, span.content.as_str(), base, Some(span.style))
        };
        proof {
            let t = spans@.take(i + 1);
            assert(t.drop_last() =~= spans@.take(i as int));
            assert(t.last() == spans@[i as int]);
            let p = if is_selected {
                text_piece(span.content@, span.style, Some(base))
            } else {
                text_piece(span.content@, base, Some(span.style))
            };
            lemma_drawn_concat(
                before,
                bx,
                cells_view(cells@),
                nx as int,
                start,
                x as int,
                max_x as int,
                row,
                span_pieces(spans@.take(i as int), base, is_selected),
                seq![p],
            );
            assert(span_pieces(spans@.take(i as int), base, is_selected) + seq![p] =~= span_pieces(
                t,
                base,
                is_selected,
            ));
        }
        cx = nx;
    }
    proof {
        assert(spans@.take(n as int) =~= spans@);
    }
    cx
}

impl Breadcrumb {
    /// The style of segment `index`: its selected style (or the widget's)
    /// when selected; else, for the last segment, the active style, its own
    /// style or the item style; else its own style or the item style.
    pub open spec fn item_base_style(self, index: int, selected: Option<usize>) -> Style {
        let item = self.items@[index];
        if selected == Some(index as usize) {
            match item.selected_style {
                Some(s) => s,
                None => self.selected_style,
            }
        } else if index + 1 == self.items@.len() {
            match self.active_style {
                Some(s) => s,
                None => match item.style {
                    Some(s) => s,
                    None => self.item_style,
                },
            }
        } else {
            match item.style {
                Some(s) => s,
                None => self.item_style,
            }
        }
    }

    /// The pieces of a separator: padding, symbol, padding.
    pub open spec fn separator_pieces(self) -> Seq<Piece> {
        let sp = self.separator.spacing as int;
        let st = self.separator.style;
        seq![pad_piece(sp, st), text_piece(self.separator.symbol@, st, None), pad_piece(sp, st)]
    }

    /// The pieces of the label of segment `index`.
    pub open spec fn label_pieces(self, index: int, abbreviated: Option<Seq<char>>, selected: Option<usize>) -> Seq<Piece> {
        let base = self.item_base_style(index, selected);
        match abbreviated {
            Some(a) => seq![text_piece(a, base, None)],
            None => span_pieces(self.items@[index].label.spans@, base, selected == Some(index as usize)),
        }
    }

    /// The pieces of the dropdown indicator of segment `index`: a space and
    /// the symbol, when it has one.
    pub open spec fn dropdown_pieces(self, index: int) -> Seq<Piece> {
        let item = self.items@[index];
        if item.has_dropdown {
            seq![
                pad_piece(1, self.dropdown_style),
                text_piece(dropdown_text(item, self.dropdown_symbol@), self.dropdown_style, None),
            ]
        } else {
            Seq::empty()
        }
    }

    /// The pieces of one layout element.
    pub open spec fn element_pieces(self, e: ElementView, selected: Option<usize>) -> Seq<Piece> {
        match e {
            ElementView::Separator => self.separator_pieces(),
            ElementView::Ellipsis { text } => seq![text_piece(text, self.ellipsis_style, None)],
            ElementView::Item { index, abbreviated } => self.label_pieces(index, abbreviated, selected)
                + self.dropdown_pieces(index),
        }
    }

    /// The pieces of a sequence of layout elements.
    pub open spec fn elements_pieces(self, elems: Seq<ElementView>, selected: Option<usize>) -> Seq<Piece>
        decreases elems.len(),
    {
        if elems.len() == 0 {
            Seq::empty()
        } else {
            self.elements_pieces(elems.drop_last(), selected) + self.element_pieces(elems.last(), selected)
        }
    }

    /// The display columns one layout element takes.
    pub open spec fn element_width(self, e: ElementView) -> int {
        element_cost(self.items@, self.separator.total_width_spec(), self.dropdown_symbol@, e)
    }

    /// The display columns a sequence of layout elements takes.
    pub open spec fn elements_width(self, elems: Seq<ElementView>) -> int {
        layout_cost(self.items@, self.separator.total_width_spec(), self.dropdown_symbol@, elems)
    }

    /// The column a trail `total` columns wide starts at in `inner`.
    pub open spec fn start_column(self, inner: Rect, total: int) -> int {
        let free = if total < inner.width {
            inner.width - total
        } else {
            0
        };
        match self.alignment {
            Alignment::Left => inner.x as int,
            Alignment::Center => sat_u16(inner.x + free / 2),
            Alignment::Right => sat_u16(inner.x + free),
        }
    }

    /// The label cells recorded for the segments of `elems`, drawn from
    /// column `sx` with `cap` columns before the right edge.
    pub open spec fn item_rects_spec(self, elems: Seq<ElementView>, selected: Option<usize>, sx: int, cap: int, row: u16) -> Seq<
        (usize, Rect),
    >
        decreases elems.len(),
    {
        if elems.len() == 0 {
            Seq::empty()
        } else {
            let prev = elems.drop_last();
            let rest = self.item_rects_spec(prev, selected, sx, cap, row);
            let off = pieces_width(self.elements_pieces(prev, selected));
            match elems.last() {
                ElementView::Item { index, abbreviated } => if off < cap {
                    let len = pieces_width(self.label_pieces(index, abbreviated, selected));
                    rest.push(
                        (
                            index as usize,
                            Rect { x: (sx + off) as u16, y: row, width: min_int(len, cap - off) as u16, height: 1 },
                        ),
                    )
                } else {
                    rest
                },
                _ => rest,
            }
        }
    }

    /// The dropdown indicator cells recorded for the segments of `elems`.
    pub open spec fn dropdown_rects_spec(self, elems: Seq<ElementView>, selected: Option<usize>, sx: int, cap: int, row: u16) -> Seq<
        (usize, Rect),
    >
        decreases elems.len(),
    {
        if elems.len() == 0 {
            Seq::empty()
        } else {
            let prev = elems.drop_last();
            let rest = self.dropdown_rects_spec(prev, selected, sx, cap, row);
            let off = pieces_width(self.elements_pieces(prev, selected));
            match elems.last() {
                ElementView::Item { index, abbreviated } => {
                    let len = pieces_width(self.label_pieces(index, abbreviated, selected));
                    let item = self.items@[index];
                    if item.has_dropdown && off + len < cap {
                        let d = off + len + 1;
                        let sym_w = display_width(dropdown_text(item, self.dropdown_symbol@)) as int;
                        rest.push(
                            (
                                index as usize,
                                Rect { x: (sx + d) as u16, y: row, width: min_int(sym_w, cap - d) as u16, height: 1 },
                            ),
                        )
                    } else {
                        rest
                    }
                },
                _ => rest,
            }
        }
    }

    /// The cells recorded for the ellipsis of `elems` (the last one drawn).
    pub open spec fn ellipsis_rect_spec(self, elems: Seq<ElementView>, selected: Option<usize>, sx: int, cap: int, row: u16) -> Option<Rect>
        decreases elems.len(),
    {
        if elems.len() == 0 {
            None
        } else {
            let prev = elems.drop_last();
            let rest = self.ellipsis_rect_spec(prev, selected, sx, cap, row);
            let off = pieces_width(self.elements_pieces(prev, selected));
            match elems.last() {
                ElementView::Ellipsis { text } => if off < cap {
                    Some(
                        Rect {
                            x: (sx + off) as u16,
                            y: row,
                            width: min_int((display_width(text) as u16) as int, cap - off) as u16,
                            height: 1,
                        },
                    )
                } else {
                    rest
                },
                _ => rest,
            }
        }
    }

    /// The layout the widget resolves for an area `inner`.
    pub open spec fn planned_layout(self, inner: Rect) -> Seq<ElementView> {
        layout(
            self.items@,
            self.separator.total_width_spec(),
            inner.width as int,
            self.strategy,
            self.dropdown_symbol@,
        )
    }

    /// `plan` is what the widget draws into `inner` with `selected` selected:
    /// nothing for an empty area; else the pieces of its layout drawn one
    /// after another on the area's top row from the aligned start column,
    /// each character at its display-width offset and only where it fits
    /// before the area's right edge, and the cells of each label, dropdown
    /// indicator and ellipsis that starts before that edge.
    pub open spec fn is_plan(self, inner: Rect, selected: Option<usize>, plan: RenderPlan) -> bool {
        if inner.width == 0 || inner.height == 0 {
            &&& plan.cells@.len() == 0
            &&& plan.item_rects@.len() == 0
            &&& plan.dropdown_rects@.len() == 0
            &&& plan.ellipsis_rect is None
        } else {
            let elems = self.planned_layout(inner);
            let sx = self.start_column(inner, sat(self.elements_width(elems)));
            let max_x = sat_u16(inner.x + inner.width);
            let cap = max_x - sx;
            &&& cells_view(plan.cells@) == pieces_cells(self.elements_pieces(elems, selected), sx, max_x, inner.y)
            &&& plan.item_rects@ == self.item_rects_spec(elems, selected, sx, cap, inner.y)
            &&& plan.dropdown_rects@ == self.dropdown_rects_spec(elems, selected, sx, cap, inner.y)
            &&& plan.ellipsis_rect == self.ellipsis_rect_spec(elems, selected, sx, cap, inner.y)
        }
    }

    proof fn lemma_pieces_step(self, elems: Seq<ElementView>, selected: Option<usize>, j: int)
        requires
            0 <= j < elems.len(),
        ensures
            self.elements_pieces(elems.take(j + 1), selected) == self.elements_pieces(elems.take(j), selected)
                + self.element_pieces(elems[j], selected),
            elems.take(j + 1).drop_last() == elems.take(j),
            elems.take(j + 1).last() == elems[j],
    {
        assert(elems.take(j + 1).drop_last() =~= elems.take(j));
    }

    /// A dropdown indicator takes one column of space and the symbol's width.
    pub proof fn lemma_dropdown_width(self, index: int)
        ensures
            pieces_width(self.dropdown_pieces(index)) == if self.items@[index].has_dropdown {
                1 + display_width(dropdown_text(self.items@[index], self.dropdown_symbol@))
            } else {
                0
            },
    {
        let dps = self.dropdown_pieces(index);
        if self.items@[index].has_dropdown {
            let one = seq![pad_piece(1, self.dropdown_style)];
            assert(dps.drop_last() =~= one);
            assert(one.drop_last() =~= Seq::<Piece>::empty());
            assert(pieces_width(Seq::<Piece>::empty()) == 0);
            assert(spaces(1).len() == 1);
            assert(pieces_width(one) == 1);
        }
    }

    /// Element pieces of a joined sequence of elements are joined.
    proof fn lemma_elements_pieces_concat(self, a: Seq<ElementView>, b: Seq<ElementView>, selected: Option<usize>)
        ensures
            self.elements_pieces(a + b, selected) == self.elements_pieces(a, selected) + self.elements_pieces(
                b,
                selected,
            ),
        decreases b.len(),
    {
        if b.len() == 0 {
            assert(a + b =~= a);
            assert(self.elements_pieces(a, selected) + Seq::<Piece>::empty() =~= self.elements_pieces(a, selected));
        } else {
            self.lemma_elements_pieces_concat(a, b.drop_last(), selected);
            assert((a + b).drop_last() =~= a + b.drop_last());
            assert((a + b).last() == b.last());
            assert(self.elements_pieces(a, selected) + self.elements_pieces(b.drop_last(), selected)
                + self.element_pieces(b.last(), selected) =~= self.elements_pieces(a, selected) + (
            self.elements_pieces(b.drop_last(), selected) + self.element_pieces(b.last(), selected)));
        }
    }

    /// Elements after the drawn columns are used up record nothing more.
    proof fn lemma_plan_tail(
        self,
        elems: Seq<ElementView>,
        selected: Option<usize>,
        sx: int,
        cap: int,
        row: u16,
        j: int,
        k: int,
    )
        requires
            0 <= j <= k <= elems.len(),
            cap <= pieces_width(self.elements_pieces(elems.take(j), selected)),
        ensures
            self.item_rects_spec(elems.take(k), selected, sx, cap, row) == self.item_rects_spec(
                elems.take(j),
                selected,
                sx,
                cap,
                row,
            ),
            self.dropdown_rects_spec(elems.take(k), selected, sx, cap, row) == self.dropdown_rects_spec(
                elems.take(j),
                selected,
                sx,
                cap,
                row,
            ),
            self.ellipsis_rect_spec(elems.take(k), selected, sx, cap, row) == self.ellipsis_rect_spec(
                elems.take(j),
                selected,
                sx,
                cap,
                row,
            ),
            pieces_width(self.elements_pieces(elems.take(j), selected)) <= pieces_width(
                self.elements_pieces(elems.take(k), selected),
            ),
        decreases k - j,
    {
        if k > j {
            self.lemma_plan_tail(elems, selected, sx, cap, row, j, k - 1);
            self.lemma_pieces_step(elems, selected, k - 1);
            lemma_pieces_concat(
                self.elements_pieces(elems.take(k - 1), selected),
                self.element_pieces(elems[k - 1], selected),
                0,
                0,
                row,
            );
            lemma_pieces_width_nonneg(self.element_pieces(elems[k - 1], selected));
            match elems[k - 1] {
                ElementView::Item { index, abbreviated } => {
                    lemma_pieces_width_nonneg(self.label_pieces(index, abbreviated, selected));
                },
                _ => {},
            }
        }
    }

    /// The display columns taken by the resolved elements.
    fn layout_width(&self, elements: &Vec<RenderElement>, sep_width: usize) -> (w: usize)
        requires
            sep_width == self.separator.total_width_spec(),
            indices_below(elems_view(elements@), self.items@.len() as int),
        ensures
            w == sat(self.elements_width(elems_view(elements@))),
    {
        let ghost elems = elems_view(elements@);
        let n = elements.len();
        let mut acc: usize = 0;
        let sym = self.dropdown_symbol.as_str();
        for j in 0..n
            invariant
                n == elems.len(),
                elems == elems_view(elements@),
                sep_width == self.separator.total_width_spec(),
                indices_below(elems, self.items@.len() as int),
                sym@ == self.dropdown_symbol@,
                acc == sat(self.elements_width(elems.take(j as int))),
        {
            assert(elems.take(j + 1).drop_last() =~= elems.take(j as int));
            assert(elems[j as int] == elements@[j as int]@);
            assert(item_index_ok(elems[j as int], self.items@.len() as int));
            let w = match &elements[j] {
                RenderElement::Separator => sep_width,
                RenderElement::Ellipsis { text } => str_width(text.as_str()),
                RenderElement::Item { index, abbreviated_label } => match abbreviated_label {
                    Some(a) => {
                        let lw = str_width(a.as_str());
                        self.items[*index].width_with_label(lw, sym)
                    },
                    None => self.items[*index].total_width(sym),
                },
            };
            assert(w == self.element_width(elems[j as int]));
            proof {
                lemma_layout_cost_nonneg(self.items@, sep_width as int, self.dropdown_symbol@, elems.take(j as int));
                lemma_sat_assoc(self.elements_width(elems.take(j as int)), w as int);
            }
            acc = add_cols(acc, w);
        }
        assert(elems.take(n as int) =~= elems);
        acc
    }

    /// The column a trail `total` columns wide starts at in `inner`.
    fn start_x(&self, inner: Rect, total: usize) -> (x: u16)
        ensures
            x == self.start_column(inner, total as int),
            x <= sat_u16(inner.x + inner.width),
    {
        let available = inner.width as usize;
        let free = available.saturating_sub(total);
        match self.alignment {
            Alignment::Left => inner.x,
            Alignment::Center => inner.x.saturating_add((free / 2) as u16),
            Alignment::Right => inner.x.saturating_add(free as u16),
        }
    }
}

impl Breadcrumb {
    /// The style of segment `index` with `selected` selected.
    fn item_style_of(&self, index: usize, selected: Option<usize>) -> (s: Style)
        requires
            index < self.items@.len(),
        ensures
            s == self.item_base_style(index as int, selected),
    {
        let item = &self.items[index];
        let is_selected = match selected {
            Some(sel) => sel == index,
            None => false,
        };
        if is_selected {
            match item.selected_style {
                Some(st) => st,
                None => self.selected_style,
            }
        } else if index == self.items.len() - 1 {
            match self.active_style {
                Some(st) => st,
                None => match item.style {
                    Some(st) => st,
                    None => self.item_style,
                },
            }
        } else {
            match item.style {
                Some(st) => st,
                None => self.item_style,
            }
        }
    }

    /// Draws the separator from column `x`: padding, symbol, padding.
    fn draw_separator(&self, cells: &mut Vec<PlannedCell>, x: u16, max_x: u16, row: u16) -> (nx: u16)
        requires
            x <= max_x,
        ensures
            drawn(
                cells_view(final(cells)@),
                nx as int,
                cells_view(old(cells)@),
                x as int,
                max_x as int,
                row,
                self.separator_pieces(),
            ),
    {
        let ghost c0 = cells_view(cells@);
        let sp = self.separator.spacing;
        let st = self.separator.style;
        let ghost pad = pad_piece(sp as int, st);
        let ghost sym = text_piece(self.separator.symbol@, st, None);
        let x1 = paint_spaces(cells, x, max_x, row, sp, st);
        let ghost c1 = cells_view(cells@);
        proof {
            lemma_cursor_closed(seq![pad], x as int, max_x as int);
        }
        let x2 = paint_text(cells, x1, max_x, row, self.separator.symbol.as_str(), st, None);
        let ghost c2 = cells_view(cells@);
        proof {
            lemma_cursor_closed(seq![sym], x1 as int, max_x as int);
        }
        let x3 = paint_spaces(cells, x2, max_x, row, sp, st);
        proof {
            lemma_drawn_concat(c1, x1 as int, c2, x2 as int, c0, x as int, max_x as int, row, seq![pad], seq![sym]);
            lemma_drawn_concat(
                c2,
                x2 as int,
                cells_view(cells@),
                x3 as int,
                c0,
                x as int,
                max_x as int,
                row,
                seq![pad] + seq![sym],
                seq![pad],
            );
            assert(seq![pad] + seq![sym] + seq![pad] =~= self.separator_pieces());
        }
        x3
    }

    /// Draws one layout element from column `x`, recording the cells of a
    /// segment's label and dropdown indicator, or of the ellipsis.
    fn draw_element(
        &self,
        e: &RenderElement,
        selected: Option<usize>,
        cells: &mut Vec<PlannedCell>,
        item_rects: &mut Vec<(usize, Rect)>,
        dropdown_rects: &mut Vec<(usize, Rect)>,
        ellipsis_rect: &mut Option<Rect>,
        x: u16,
        max_x: u16,
        row: u16,
    ) -> (nx: u16)
        requires
            x < max_x,
            item_index_ok(e@, self.items@.len() as int),
        ensures
            drawn(
                cells_view(final(cells)@),
                nx as int,
                cells_view(old(cells)@),
                x as int,
                max_x as int,
                row,
                self.element_pieces(e@, selected),
            ),
            final(item_rects)@ == match e@ {
                ElementView::Item { index, abbreviated } => old(item_rects)@.push(
                    (
                        index as usize,
                        Rect {
                            x,
                            y: row,
                            width: min_int(pieces_width(self.label_pieces(index, abbreviated, selected)), max_x - x) as u16,
                            height: 1,
                        },
                    ),
                ),
                _ => old(item_rects)@,
            },
            final(dropdown_rects)@ == match e@ {
                ElementView::Item { index, abbreviated } => {
                    let len = pieces_width(self.label_pieces(index, abbreviated, selected));
                    let item = self.items@[index];
                    if item.has_dropdown && x + len < max_x {
                        let d = x + len + 1;
                        let sym_w = display_width(dropdown_text(item, self.dropdown_symbol@)) as int;
                        old(dropdown_rects)@.push(
                            (index as usize, Rect { x: d as u16, y: row, width: min_int(sym_w, max_x - d) as u16, height: 1 }),
                        )
                    } else {
                        old(dropdown_rects)@
                    }
                },
                _ => old(dropdown_rects)@,
            },
            *final(ellipsis_rect) == match e@ {
                ElementView::Ellipsis { text } => Some(
                    Rect { x, y: row, width: min_int((display_width(text) as u16) as int, max_x - x) as u16, height: 1 },
                ),
                _ => *old(ellipsis_rect),
            },
    {
        let ghost c0 = cells_view(cells@);
        match e {
            RenderElement::Separator => self.draw_separator(cells, x, max_x, row),
            RenderElement::Ellipsis { text } => {
                let w = str_width(text.as_str()) as u16;
                let room = max_x - x;
                let ew = if w < room {
                    w
                } else {
                    room
                };
                let nx = paint_text(cells, x, max_x, row, text.as_str(), self.ellipsis_style, None);
                *ellipsis_rect = Some(Rect::new(x, row, ew, 1));
                nx
            },
            RenderElement::Item { index, abbreviated_label } => {
                let index = *index;
                let base = self.item_style_of(index, selected);
                let is_selected = match selected {
                    Some(sel) => sel == index,
                    None => false,
                };
                let ghost lp = self.label_pieces(index as int, e@->abbreviated, selected);
                let lx = match abbreviated_label {
                    Some(a) => paint_text(cells, x, max_x, row, a.as_str(), base, None),
                    None => paint_spans(cells, x, max_x, row, &self.items[index].label.spans, base, is_selected),
                };
                let ghost c1 = cells_view(cells@);
                proof {
                    lemma_cursor_closed(lp, x as int, max_x as int);
                    lemma_pieces_width_nonneg(lp);
                }
                item_rects.push((index, Rect::new(x, row, lx - x, 1)));
                let item = &self.items[index];
                let ghost dp = self.dropdown_pieces(index as int);
                let mut cx = lx;
                if item.has_dropdown && lx < max_x {
                    let sx1 = paint_spaces(cells, lx, max_x, row, 1, self.dropdown_style);
                    let ghost c2 = cells_view(cells@);
                    let sym = match &item.dropdown_symbol {
                        Some(s) => s.as_str(),
                        None => self.dropdown_symbol.as_str(),
                    };
                    proof {
                        lemma_cursor_closed(seq![pad_piece(1, self.dropdown_style)], lx as int, max_x as int);
                        assert(spaces(1).len() == 1);
                    }
                    let sx2 = paint_text(cells, sx1, max_x, row, sym, self.dropdown_style, None);
                    proof {
                        lemma_cursor_closed(seq![text_piece(sym@, self.dropdown_style, None)], sx1 as int, max_x as int);
                    }
                    dropdown_rects.push((index, Rect::new(sx1, row, sx2 - sx1, 1)));
                    proof {
                        lemma_drawn_concat(
                            c1,
                            lx as int,
                            c2,
                            sx1 as int,
                            c1,
                            lx as int,
                            max_x as int,
                            row,
                            Seq::<Piece>::empty(),
                            seq![pad_piece(1, self.dropdown_style)],
                        );
                        lemma_drawn_empty(c1, lx as int, max_x as int, row);
                        lemma_drawn_concat(
                            c2,
                            sx1 as int,
                            cells_view(cells@),
                            sx2 as int,
                            c1,
                            lx as int,
                            max_x as int,
                            row,
                            seq![pad_piece(1, self.dropdown_style)],
                            seq![text_piece(sym@, self.dropdown_style, None)],
                        );
                        assert(seq![pad_piece(1, self.dropdown_style)] + seq![
                            text_piece(sym@, self.dropdown_style, None),
                        ] =~= dp);
                    }
                    cx = sx2;
                } else {
                    proof {
                        if item.has_dropdown {
                            lemma_pieces_at_edge(dp, max_x as int, row);
                            assert(c1 + Seq::<CellView>::empty() =~= c1);
                        } else {
                            lemma_drawn_empty(c1, lx as int, max_x as int, row);
                        }
                    }
                }
                proof {
                    lemma_drawn_concat(c1, lx as int, cells_view(cells@), cx as int, c0, x as int, max_x as int, row, lp, dp);
                }
                cx
            },
        }
    }

    /// What the widget draws into the area `inner` with segment `selected`
    /// selected: the cells, left to right, and the cells of each segment
    /// label, dropdown indicator and ellipsis drawn.
    pub fn plan(&self, inner: Rect, selected: Option<usize>) -> (p: RenderPlan)
        ensures
            self.is_plan(inner, selected, p),
    {
        let mut cells: Vec<PlannedCell> = Vec::new();
        let mut item_rects: Vec<(usize, Rect)> = Vec::new();
        let mut dropdown_rects: Vec<(usize, Rect)> = Vec::new();
        let mut ellipsis_rect: Option<Rect> = None;
        if inner.width == 0 || inner.height == 0 {
            return RenderPlan { cells, item_rects, dropdown_rects, ellipsis_rect };
        }
        let sep_width = self.separator.total_width();
        let elements = resolve_layout(
            self.items.as_slice(),
            sep_width,
            inner.width as usize,
            &self.strategy,
            self.dropdown_symbol.as_str(),
        );
        let ghost elems = elems_view(elements@);
        proof {
            lemma_layout_indices(
                self.items@,
                sep_width as int,
                inner.width as int,
                self.strategy,
                self.dropdown_symbol@,
            );
        }
        let total = self.layout_width(&elements, sep_width);
        let sx = self.start_x(inner, total);
        let row = inner.y;
        let max_x = inner.x.saturating_add(inner.width);
        let ghost cap = max_x - sx;
        let n = elements.len();
        let mut curr_x = sx;
        let mut j: usize = 0;
        proof {
            assert(elems.take(0) =~= Seq::<ElementView>::empty());
            assert(cells_view(cells@) =~= Seq::<CellView>::empty());
            lemma_drawn_empty(Seq::empty(), sx as int, max_x as int, row);
        }
        while j < n && curr_x < max_x
            invariant
                n == elems.len(),
                elems == elems_view(elements@),
                elems == self.planned_layout(inner),
                indices_below(elems, self.items@.len() as int),
                0 <= j <= n,
                sx <= curr_x <= max_x,
                cap == max_x - sx,
                row == inner.y,
                drawn(
                    cells_view(cells@),
                    curr_x as int,
                    Seq::empty(),
                    sx as int,
                    max_x as int,
                    row,
                    self.elements_pieces(elems.take(j as int), selected),
                ),
                item_rects@ == self.item_rects_spec(elems.take(j as int), selected, sx as int, cap, row),
                dropdown_rects@ == self.dropdown_rects_spec(elems.take(j as int), selected, sx as int, cap, row),
                ellipsis_rect == self.ellipsis_rect_spec(elems.take(j as int), selected, sx as int, cap, row),
            decreases n - j,
        {
            let ghost before = cells_view(cells@);
            let ghost bx = curr_x as int;
            proof {
                assert(elems[j as int] == elements@[j as int]@);
                assert(item_index_ok(elems[j as int], self.items@.len() as int));
                self.lemma_pieces_step(elems, selected, j as int);
                lemma_cursor_closed(self.elements_pieces(elems.take(j as int), selected), sx as int, max_x as int);
            }
            let nx = self.draw_element(
                &elements[j],
                selected,
                &mut cells,
                &mut item_rects,
                &mut dropdown_rects,
                &mut ellipsis_rect,
                curr_x,
                max_x,
                row,
            );
            proof {
                lemma_drawn_concat(
                    before,
                    bx,
                    cells_view(cells@),
                    nx as int,
                    Seq::empty(),
                    sx as int,
                    max_x as int,
                    row,
                    self.elements_pieces(elems.take(j as int), selected),
                    self.element_pieces(elems[j as int], selected),
                );
                lemma_cursor_closed(self.elements_pieces(elems.take(j + 1), selected), sx as int, max_x as int);
                lemma_pieces_width_nonneg(self.elements_pieces(elems.take(j + 1), selected));
            }
            curr_x = nx;
            j = j + 1;
        }
        proof {
            let done = self.elements_pieces(elems.take(j as int), selected);
            let rest = self.elements_pieces(elems.skip(j as int), selected);
            assert(elems.take(j as int) + elems.skip(j as int) =~= elems);
            self.lemma_elements_pieces_concat(elems.take(j as int), elems.skip(j as int), selected);
            lemma_pieces_concat(done, rest, sx as int, max_x as int, row);
            lemma_cursor_closed(done, sx as int, max_x as int);
            if j < n {
                assert(curr_x == max_x);
                lemma_pieces_at_edge(rest, max_x as int, row);
                self.lemma_plan_tail(elems, selected, sx as int, cap, row, j as int, n as int);
            } else {
                assert(elems.skip(j as int) =~= Seq::<ElementView>::empty());
                assert(rest =~= Seq::<Piece>::empty());
            }
            assert(elems.take(n as int) =~= elems);
            let all = pieces_cells(self.elements_pieces(elems, selected), sx as int, max_x as int, row);
            assert(Seq::<CellView>::empty() + pieces_cells(done, sx as int, max_x as int, row) =~= pieces_cells(
                done,
                sx as int,
                max_x as int,
                row,
            ));
            assert(pieces_cells(done, sx as int, max_x as int, row) + Seq::<CellView>::empty() =~= pieces_cells(
                done,
                sx as int,
                max_x as int,
                row,
            ));
        }
        RenderPlan { cells, item_rects, dropdown_rects, ellipsis_rect }
    }
}

impl Breadcrumb {
    /// Renders into the area `inner` with the selection of `state`: forgets
    /// the cells of the last render, records `inner` and the cells of each
    /// segment label, dropdown indicator and ellipsis drawn, and returns the
    /// cells to draw.
    pub fn render_breadcrumb(&self, inner: Rect, state: &mut BreadcrumbState) -> (cells: Vec<PlannedCell>)
        ensures
            final(state).selected == old(state).selected,
            final(state).hovered == old(state).hovered,
            final(state).rendered_area == inner,
            self.is_plan(
                inner,
                old(state).selected,
                (RenderPlan {
                    cells,
                    item_rects: final(state).item_rects,
                    dropdown_rects: final(state).dropdown_rects,
                    ellipsis_rect: final(state).ellipsis_rect,
                }),
            ),
    {
        state.reset_cache(inner);
        let p = self.plan(inner, state.selected);
        state.item_rects = p.item_rects;
        state.dropdown_rects = p.dropdown_rects;
        state.ellipsis_rect = p.ellipsis_rect;
        p.cells
    }
}

} // verus!
