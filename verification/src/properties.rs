//! Properties of the library as a whole: what every layout keeps, how wide it
//! is, where a render draws, and how the selection moves.

use vstd::prelude::*;
use crate::item::{BreadcrumbItem, item_width_with};
use crate::layout_spec::{
    ElementView, clip_count, clipped_layout, element_cost, end_count, end_include, end_layout, full_layout,
    item_el, items_run, layout, layout_cost, lemma_middle_bounds, middle_bounds, middle_cost, middle_grow_phase,
    middle_head_phase, middle_layout, middle_tail_phase, run_cost, shortened_full_layout, shortened_label,
    shortened_widths, shorten_layout, start_layout, start_tail, item_widths,
};
use crate::geometry::{Rect, rect_contains, sat_u16};
use crate::render::{
    Piece, RenderPlan, cells_view, char_offset, cursor, lemma_cursor_closed, lemma_pieces_concat,
    lemma_pieces_width_nonneg, min_int, pad_piece, piece_cells, pieces_cells, pieces_width, spaces,
};
use crate::state::{hit_index, last_selection, next_selection, previous_selection};
use crate::text::sat;
use crate::widget::Breadcrumb;
use crate::strategy::TruncateStrategy;
use crate::text::display_width;

verus! {

/// A segment's width with a label `lw` columns wide is a column count.
proof fn lemma_item_width_range(item: BreadcrumbItem, lw: int, sym: Seq<char>)
    requires
        0 <= lw <= usize::MAX,
    ensures
        0 <= item_width_with(item, lw, sym) <= usize::MAX,
{
}

/// A run splits into two runs and the separator between them.
proof fn lemma_run_cost_split(w: Seq<usize>, sep: int, lo: int, m: int, hi: int)
    requires
        0 <= lo < m < hi <= w.len(),
    ensures
        run_cost(w, sep, lo, hi) == run_cost(w, sep, lo, m) + sep + run_cost(w, sep, m, hi),
    decreases hi - m,
{
    if hi > m + 1 {
        lemma_run_cost_split(w, sep, lo, m, hi - 1);
    }
}

proof fn lemma_clip_count_fits(w: Seq<usize>, sep: int, avail: int, i: int)
    requires
        0 <= i <= w.len(),
    ensures
        clip_count(w, sep, avail, i) == i || run_cost(w, sep, 0, clip_count(w, sep, avail, i)) <= avail,
    decreases w.len() - i,
{
    if i < w.len() && run_cost(w, sep, 0, i + 1) <= avail {
        lemma_clip_count_fits(w, sep, avail, i + 1);
    }
}

proof fn lemma_start_tail_fits(w: Seq<usize>, sep: int, avail: int, ew: int, s: int)
    requires
        0 <= s,
        ew + sep + run_cost(w, sep, s, w.len() as int) <= avail,
    ensures
        ew + sep + run_cost(w, sep, start_tail(w, sep, avail, ew, s), w.len() as int) <= avail,
    decreases s,
{
    if s > 0 && ew + sep + run_cost(w, sep, s - 1, w.len() as int) <= avail {
        lemma_start_tail_fits(w, sep, avail, ew, s - 1);
    }
}

proof fn lemma_end_count_last(w: Seq<usize>, sep: int, avail: int, min_head: int, ew: int, i: int)
    requires
        0 <= i <= w.len(),
    ensures
        end_count(w, sep, avail, min_head, ew, i) == i || end_include(
            w,
            sep,
            avail,
            min_head,
            ew,
            end_count(w, sep, avail, min_head, ew, i) - 1,
        ),
    decreases w.len() - i,
{
    if i < w.len() && end_include(w, sep, avail, min_head, ew, i) {
        lemma_end_count_last(w, sep, avail, min_head, ew, i + 1);
    }
}

proof fn lemma_head_phase_fits(w: Seq<usize>, sep: int, avail: int, ew: int, req: int, h: int, t: int)
    requires
        middle_cost(w, sep, ew, h, t) <= avail,
    ensures
        middle_cost(w, sep, ew, middle_head_phase(w, sep, avail, ew, req, h, t), t) <= avail,
    decreases t - h,
{
    if h < req && h < t && middle_cost(w, sep, ew, h + 1, t) <= avail {
        lemma_head_phase_fits(w, sep, avail, ew, req, h + 1, t);
    }
}

proof fn lemma_tail_phase_fits(w: Seq<usize>, sep: int, avail: int, ew: int, req: int, h: int, t: int)
    requires
        middle_cost(w, sep, ew, h, t) <= avail,
    ensures
        middle_cost(w, sep, ew, h, middle_tail_phase(w, sep, avail, ew, req, h, t)) <= avail,
    decreases t - h,
{
    if w.len() - t < req && t > h && middle_cost(w, sep, ew, h, t - 1) <= avail {
        lemma_tail_phase_fits(w, sep, avail, ew, req, h, t - 1);
    }
}

proof fn lemma_grow_phase_fits(w: Seq<usize>, sep: int, avail: int, ew: int, h: int, t: int)
    requires
        middle_cost(w, sep, ew, h, t) <= avail,
    ensures
        middle_cost(
            w,
            sep,
            ew,
            middle_grow_phase(w, sep, avail, ew, h, t).0,
            middle_grow_phase(w, sep, avail, ew, h, t).1,
        ) <= avail,
    decreases t - h,
{
    let grow_tail = t > h && middle_cost(w, sep, ew, h, t - 1) <= avail;
    let t2 = if grow_tail {
        t - 1
    } else {
        t
    };
    let grow_head = h < t2 && middle_cost(w, sep, ew, h + 1, t2) <= avail;
    let h2 = if grow_head {
        h + 1
    } else {
        h
    };
    if (grow_tail || grow_head) && t - h > 0 {
        lemma_grow_phase_fits(w, sep, avail, ew, h2, t2);
    }
}

/// The columns one element takes when segment `i` is `ws[i]` columns wide.
spec fn elem_wcost(ws: Seq<usize>, sep: int, e: ElementView) -> int {
    match e {
        ElementView::Item { index, .. } => ws[index] as int,
        ElementView::Separator => sep,
        ElementView::Ellipsis { text } => display_width(text) as int,
    }
}

/// The columns a sequence of elements takes when segment `i` is `ws[i]`
/// columns wide.
spec fn wcost(ws: Seq<usize>, sep: int, v: Seq<ElementView>) -> int
    decreases v.len(),
{
    if v.len() == 0 {
        0
    } else {
        wcost(ws, sep, v.drop_last()) + elem_wcost(ws, sep, v.last())
    }
}

proof fn lemma_wcost_concat(ws: Seq<usize>, sep: int, a: Seq<ElementView>, b: Seq<ElementView>)
    ensures
        wcost(ws, sep, a + b) == wcost(ws, sep, a) + wcost(ws, sep, b),
    decreases b.len(),
{
    if b.len() == 0 {
        assert(a + b =~= a);
    } else {
        lemma_wcost_concat(ws, sep, a, b.drop_last());
        assert((a + b).drop_last() =~= a + b.drop_last());
        assert((a + b).last() == b.last());
    }
}

proof fn lemma_wcost_single(ws: Seq<usize>, sep: int, x: ElementView)
    ensures
        wcost(ws, sep, seq![x]) == elem_wcost(ws, sep, x),
{
    assert(seq![x].drop_last() =~= Seq::<ElementView>::empty());
    assert(wcost(ws, sep, Seq::<ElementView>::empty()) == 0);
}

proof fn lemma_wcost_items_run(ws: Seq<usize>, sep: int, lo: int, hi: int)
    requires
        lo <= hi,
    ensures
        wcost(ws, sep, items_run(lo, hi)) == run_cost(ws, sep, lo, hi),
    decreases hi - lo,
{
    if hi == lo {
        assert(items_run(lo, hi) =~= Seq::<ElementView>::empty());
    } else {
        crate::truncate::lemma_items_run_step(lo, hi - 1);
        lemma_wcost_single(ws, sep, item_el(hi - 1));
        if hi - 1 > lo {
            lemma_wcost_items_run(ws, sep, lo, hi - 1);
            lemma_wcost_single(ws, sep, ElementView::Separator);
            lemma_wcost_concat(ws, sep, seq![ElementView::Separator], seq![item_el(hi - 1)]);
            assert(seq![ElementView::Separator, item_el(hi - 1)] =~= seq![ElementView::Separator] + seq![item_el(hi - 1)]);
            lemma_wcost_concat(ws, sep, items_run(lo, hi - 1), seq![ElementView::Separator, item_el(hi - 1)]);
        }
    }
}

/// The `Start` layout fits its columns.
proof fn lemma_start_fits(w: Seq<usize>, sep: int, avail: int, e: Seq<char>)
    requires
        w.len() >= 1,
        0 <= sep,
        0 <= avail,
    ensures
        wcost(w, sep, start_layout(w, sep, avail, e)) <= avail,
{
    let n = w.len() as int;
    let ew = display_width(e) as int;
    let lay = start_layout(w, sep, avail, e);
    if avail < ew {
        assert(lay.len() == 0);
    } else if ew + sep + w[n - 1] > avail {
        if w[n - 1] <= avail {
            lemma_wcost_single(w, sep, item_el(n - 1));
        } else {
            lemma_wcost_single(w, sep, ElementView::Ellipsis { text: e });
        }
    } else {
        crate::layout_spec::lemma_run_cost_nonneg(w, sep, 0, n);
        assert(run_cost(w, sep, n - 1, n) == w[n - 1] as int);
        lemma_start_tail_fits(w, sep, avail, ew, n - 1);
        let t = start_tail(w, sep, avail, ew, n - 1);
        crate::layout_spec::lemma_start_tail_bounds(w, sep, avail, ew, n - 1);
        lemma_wcost_items_run(w, sep, 0, n);
        lemma_wcost_items_run(w, sep, t, n);
        if t != 0 {
            let head = seq![ElementView::Ellipsis { text: e }, ElementView::Separator];
            lemma_wcost_single(w, sep, ElementView::Ellipsis { text: e });
            lemma_wcost_single(w, sep, ElementView::Separator);
            lemma_wcost_concat(w, sep, seq![ElementView::Ellipsis { text: e }], seq![ElementView::Separator]);
            assert(head =~= seq![ElementView::Ellipsis { text: e }] + seq![ElementView::Separator]);
            lemma_wcost_concat(w, sep, head, items_run(t, n));
        }
    }
}

/// The `Middle` layout fits its columns.
proof fn lemma_middle_fits(w: Seq<usize>, sep: int, avail: int, min_head: int, min_tail: int, e: Seq<char>)
    requires
        w.len() >= 1,
        0 <= sep,
        0 <= avail,
    ensures
        wcost(w, sep, middle_layout(w, sep, avail, min_head, min_tail, e)) <= avail,
{
    let n = w.len() as int;
    let ew = display_width(e) as int;
    lemma_start_fits(w, sep, avail, e);
    if n >= 3 && middle_cost(w, sep, ew, 1, n - 1) <= avail {
        let head_req = if min_head > 1 {
            min_head
        } else {
            1
        };
        let tail_req = if min_tail > 1 {
            min_tail
        } else {
            1
        };
        lemma_head_phase_fits(w, sep, avail, ew, head_req, 1, n - 1);
        let h1 = middle_head_phase(w, sep, avail, ew, head_req, 1, n - 1);
        lemma_tail_phase_fits(w, sep, avail, ew, tail_req, h1, n - 1);
        let t2 = middle_tail_phase(w, sep, avail, ew, tail_req, h1, n - 1);
        lemma_grow_phase_fits(w, sep, avail, ew, h1, t2);
        lemma_middle_bounds(w, sep, avail, min_head, min_tail, ew);
        let (h, t) = middle_bounds(w, sep, avail, min_head, min_tail, ew);
        lemma_wcost_items_run(w, sep, 0, n);
        lemma_wcost_items_run(w, sep, 0, h);
        lemma_wcost_items_run(w, sep, t, n);
        crate::layout_spec::lemma_run_cost_nonneg(w, sep, 0, h);
        crate::layout_spec::lemma_run_cost_nonneg(w, sep, h, n);
        if h >= t {
            lemma_run_cost_split(w, sep, 0, h, n);
        } else {
            let s1 = seq![ElementView::Separator];
            let s2 = seq![ElementView::Ellipsis { text: e }];
            let mid = seq![ElementView::Separator, ElementView::Ellipsis { text: e }, ElementView::Separator];
            lemma_wcost_single(w, sep, ElementView::Separator);
            lemma_wcost_single(w, sep, ElementView::Ellipsis { text: e });
            lemma_wcost_concat(w, sep, s1, s2);
            lemma_wcost_concat(w, sep, s1 + s2, s1);
            assert(mid =~= s1 + s2 + s1);
            lemma_wcost_concat(w, sep, items_run(0, h), mid);
            lemma_wcost_concat(w, sep, items_run(0, h) + mid, items_run(t, n));
        }
    }
}

/// The `End` layout fits its columns.
proof fn lemma_end_fits(w: Seq<usize>, sep: int, avail: int, min_head: int, e: Seq<char>)
    requires
        w.len() >= 1,
        0 <= sep,
        0 <= avail,
    ensures
        wcost(w, sep, end_layout(w, sep, avail, min_head, e)) <= avail,
{
    let n = w.len() as int;
    let ew = display_width(e) as int;
    if avail >= ew {
        crate::layout_spec::lemma_end_count_bounds(w, sep, avail, min_head, ew, 0);
        lemma_end_count_last(w, sep, avail, min_head, ew, 0);
        let k = end_count(w, sep, avail, min_head, ew, 0);
        lemma_wcost_items_run(w, sep, 0, k);
        if k > 0 && k < n && run_cost(w, sep, 0, k) + sep + ew > avail {
            assert(k == 1);
            assert(run_cost(w, sep, 0, 1) == w[0] as int);
        } else if k > 0 && k < n {
            let tail = seq![ElementView::Separator, ElementView::Ellipsis { text: e }];
            lemma_wcost_single(w, sep, ElementView::Separator);
            lemma_wcost_single(w, sep, ElementView::Ellipsis { text: e });
            lemma_wcost_concat(w, sep, seq![ElementView::Separator], seq![ElementView::Ellipsis { text: e }]);
            assert(tail =~= seq![ElementView::Separator] + seq![ElementView::Ellipsis { text: e }]);
            lemma_wcost_concat(w, sep, items_run(0, k), tail);
        } else if k == 0 {
            lemma_wcost_single(w, sep, ElementView::Ellipsis { text: e });
        } else {
            assert(k == n);
            if n == 1 {
                assert(run_cost(w, sep, 0, 1) == w[0] as int);
            }
        }
    } else {
        assert(end_layout(w, sep, avail, min_head, e).len() == 0);
    }
}

/// The clipped layout fits its columns.
proof fn lemma_clip_fits(w: Seq<usize>, sep: int, avail: int)
    requires
        0 <= avail,
    ensures
        wcost(w, sep, clipped_layout(w, sep, avail)) <= avail,
{
    crate::layout_spec::lemma_clip_count_bounds(w, sep, avail, 0);
    lemma_clip_count_fits(w, sep, avail, 0);
    let k = clip_count(w, sep, avail, 0);
    lemma_wcost_items_run(w, sep, 0, k);
}

/// A sequence whose elements each take, as shown, the columns that `v`'s
/// take under the widths `ws`, takes the columns `v` takes.
proof fn lemma_cost_bridge(
    items: Seq<BreadcrumbItem>,
    sep: int,
    sym: Seq<char>,
    u: Seq<ElementView>,
    v: Seq<ElementView>,
    ws: Seq<usize>,
)
    requires
        u.len() == v.len(),
        forall|k: int| 0 <= k < v.len() ==> #[trigger] element_cost(items, sep, sym, u[k]) == elem_wcost(ws, sep, v[k]),
    ensures
        layout_cost(items, sep, sym, u) == wcost(ws, sep, v),
    decreases v.len(),
{
    if v.len() > 0 {
        let u2 = u.drop_last();
        let v2 = v.drop_last();
        assert forall|k: int| 0 <= k < v2.len() implies #[trigger] element_cost(items, sep, sym, u2[k]) == elem_wcost(
            ws,
            sep,
            v2[k],
        ) by {
            assert(u2[k] == u[k] && v2[k] == v[k]);
        }
        lemma_cost_bridge(items, sep, sym, u2, v2, ws);
        assert(element_cost(items, sep, sym, u[v.len() - 1]) == elem_wcost(ws, sep, v[v.len() - 1]));
    }
}

/// A segment shown with its full label takes its full width.
proof fn lemma_full_item_cost(items: Seq<BreadcrumbItem>, sep: int, sym: Seq<char>, i: int)
    requires
        0 <= i < items.len(),
    ensures
        element_cost(items, sep, sym, item_el(i)) == item_widths(items, sym)[i] as int,
{
    crate::item::lemma_label_width_nonneg(items[i].label);
    lemma_item_width_range(items[i], items[i].label.width_spec(), sym);
}

/// Under `ShortenNames` a segment shown with its label as the strategy
/// abbreviates it takes its abbreviated width.
proof fn lemma_shortened_item_cost(items: Seq<BreadcrumbItem>, sep: int, sym: Seq<char>, ml: int, pr: int, i: int)
    requires
        0 <= i < items.len(),
    ensures
        element_cost(items, sep, sym, ElementView::Item { index: i, abbreviated: shortened_label(items, i, ml, pr) })
            == shortened_widths(items, ml, pr, sym)[i] as int,
{
    crate::item::lemma_label_width_nonneg(items[i].label);
    lemma_item_width_range(items[i], items[i].label.width_spec(), sym);
    match shortened_label(items, i, ml, pr) {
        Some(a) => {
            lemma_item_width_range(items[i], display_width(a) as int, sym);
        },
        None => {},
    }
}

/// Every segment of `v` is shown with its full label.
spec fn no_abbrev(v: Seq<ElementView>) -> bool {
    forall|k: int| 0 <= k < v.len() && #[trigger] v[k] is Item ==> v[k]->abbreviated is None
}

proof fn lemma_no_abbrev_concat(a: Seq<ElementView>, b: Seq<ElementView>)
    requires
        no_abbrev(a),
        no_abbrev(b),
    ensures
        no_abbrev(a + b),
{
    assert forall|k: int| 0 <= k < (a + b).len() && #[trigger] (a + b)[k] is Item implies (a + b)[k]->abbreviated is None by {
        if k < a.len() {
            assert((a + b)[k] == a[k]);
        } else {
            assert((a + b)[k] == b[k - a.len()]);
        }
    }
}

proof fn lemma_no_abbrev_layouts(w: Seq<usize>, sep: int, avail: int, min_head: int, min_tail: int, e: Seq<char>)
    requires
        w.len() >= 1,
    ensures
        no_abbrev(start_layout(w, sep, avail, e)),
        no_abbrev(middle_layout(w, sep, avail, min_head, min_tail, e)),
        no_abbrev(end_layout(w, sep, avail, min_head, e)),
        no_abbrev(clipped_layout(w, sep, avail)),
        no_abbrev(full_layout(w.len() as int)),
{
    let n = w.len() as int;
    let ew = display_width(e) as int;
    let ell = seq![ElementView::Ellipsis { text: e }];
    let sp = seq![ElementView::Separator];
    let t = start_tail(w, sep, avail, ew, n - 1);
    lemma_no_abbrev_concat(ell, sp);
    lemma_no_abbrev_concat(ell + sp, items_run(t, n));
    assert(seq![ElementView::Ellipsis { text: e }, ElementView::Separator] =~= ell + sp);
    let (h, tt) = middle_bounds(w, sep, avail, min_head, min_tail, ew);
    lemma_no_abbrev_concat(sp, ell);
    lemma_no_abbrev_concat(sp + ell, sp);
    let mid = seq![ElementView::Separator, ElementView::Ellipsis { text: e }, ElementView::Separator];
    assert(mid =~= sp + ell + sp);
    lemma_no_abbrev_concat(items_run(0, h), mid);
    lemma_no_abbrev_concat(items_run(0, h) + mid, items_run(tt, n));
    let k = end_count(w, sep, avail, min_head, ew, 0);
    assert(seq![ElementView::Separator, ElementView::Ellipsis { text: e }] =~= sp + ell);
    lemma_no_abbrev_concat(items_run(0, k), sp + ell);
}

/// A resolved layout is never wider than the available columns: the
/// columns its segments (with their abbreviated or full labels and dropdown
/// indicators), separators and ellipsis take add up to at most `avail`, for
/// every strategy.
pub proof fn law_layout_within_width(
    items: Seq<BreadcrumbItem>,
    sep: usize,
    avail: usize,
    strategy: TruncateStrategy,
    sym: Seq<char>,
)
    ensures
        layout_cost(items, sep as int, sym, layout(items, sep as int, avail as int, strategy, sym)) <= avail,
{
    let n = items.len() as int;
    let w = item_widths(items, sym);
    let sep = sep as int;
    let avail = avail as int;
    let v = layout(items, sep, avail, strategy, sym);
    if n == 0 || avail == 0 {
        assert(v =~= Seq::<ElementView>::empty());
    } else {
        crate::layout_spec::lemma_layout_indices(items, sep, avail, strategy, sym);
        let (mh, mt, e) = match strategy {
            TruncateStrategy::Middle { min_head_items, min_tail_items, ellipsis } => (
                min_head_items as int,
                min_tail_items as int,
                ellipsis@,
            ),
            TruncateStrategy::Start { ellipsis, .. } => (0, 0, ellipsis@),
            TruncateStrategy::End { min_head_items, ellipsis } => (min_head_items as int, 0, ellipsis@),
            _ => (0, 0, Seq::empty()),
        };
        lemma_no_abbrev_layouts(w, sep, avail, mh, mt, e);
        let plain = !(strategy is ShortenNames) || run_cost(w, sep, 0, n) <= avail;
        if plain {
            assert forall|k: int| 0 <= k < v.len() implies #[trigger] element_cost(items, sep, sym, v[k])
                == elem_wcost(w, sep, v[k]) by {
                assert(crate::layout_spec::item_index_ok(v[k], n));
                if v[k] is Item {
                    lemma_full_item_cost(items, sep, sym, v[k]->index);
                    assert(v[k] == item_el(v[k]->index));
                }
            }
            lemma_cost_bridge(items, sep, sym, v, v, w);
            if run_cost(w, sep, 0, n) <= avail {
                lemma_wcost_items_run(w, sep, 0, n);
            } else {
                match strategy {
                    TruncateStrategy::Clip => {
                        lemma_clip_fits(w, sep, avail);
                    },
                    TruncateStrategy::Start { .. } => {
                        lemma_start_fits(w, sep, avail, e);
                    },
                    TruncateStrategy::Middle { .. } => {
                        lemma_middle_fits(w, sep, avail, mh, mt, e);
                    },
                    TruncateStrategy::End { .. } => {
                        lemma_end_fits(w, sep, avail, mh, e);
                    },
                    _ => {},
                }
            }
        } else {
            match strategy {
                TruncateStrategy::ShortenNames { max_abbrev_len, preserve_tail_items, ellipsis } => {
                    let ml = max_abbrev_len as int;
                    let pr = preserve_tail_items as int;
                    let sw = shortened_widths(items, ml, pr, sym);
                    if run_cost(sw, sep, 0, n) <= avail {
                        let full = full_layout(n);
                        assert forall|k: int| 0 <= k < full.len() implies #[trigger] element_cost(
                            items,
                            sep,
                            sym,
                            v[k],
                        ) == elem_wcost(sw, sep, full[k]) by {
                            if k % 2 == 0 {
                                assert(k / 2 < n);
                                lemma_shortened_item_cost(items, sep, sym, ml, pr, k / 2);
                            }
                        }
                        lemma_cost_bridge(items, sep, sym, v, full, sw);
                        lemma_wcost_items_run(sw, sep, 0, n);
                    } else {
                        let mv = middle_layout(sw, sep, avail, 1, pr, ellipsis@);
                        crate::layout_spec::lemma_middle_layout_indices(sw, sep, avail, 1, pr, ellipsis@);
                        assert forall|k: int| 0 <= k < mv.len() implies #[trigger] element_cost(
                            items,
                            sep,
                            sym,
                            v[k],
                        ) == elem_wcost(sw, sep, mv[k]) by {
                            assert(crate::layout_spec::item_index_ok(mv[k], n));
                            if mv[k] is Item {
                                lemma_shortened_item_cost(items, sep, sym, ml, pr, mv[k]->index);
                            }
                        }
                        lemma_cost_bridge(items, sep, sym, v, mv, sw);
                        lemma_middle_fits(sw, sep, avail, 1, pr, ellipsis@);
                    }
                },
                _ => {},
            }
        }
    }
}

proof fn lemma_grow_phase_maximal(w: Seq<usize>, sep: int, avail: int, ew: int, h: int, t: int)
    requires
        h <= t,
    ensures
        ({
            let (h2, t2) = middle_grow_phase(w, sep, avail, ew, h, t);
            h2 < t2 ==> middle_cost(w, sep, ew, h2, t2 - 1) > avail && middle_cost(w, sep, ew, h2 + 1, t2) > avail
        }),
    decreases t - h,
{
    let grow_tail = t > h && middle_cost(w, sep, ew, h, t - 1) <= avail;
    let t2 = if grow_tail {
        t - 1
    } else {
        t
    };
    let grow_head = h < t2 && middle_cost(w, sep, ew, h + 1, t2) <= avail;
    let h2 = if grow_head {
        h + 1
    } else {
        h
    };
    if (grow_tail || grow_head) && t - h > 0 {
        lemma_grow_phase_maximal(w, sep, avail, ew, h2, t2);
    }
}

/// What `Middle` achieves when it collapses: the root and deepest segments
/// and the ellipsis fit with separators, and the layout is a head `0..h`, an
/// ellipsis and a tail `t..n` that fit, to which neither one more tail
/// segment nor one more head segment could be added within the width.
pub proof fn law_middle_keeps_as_much_as_fits(
    items: Seq<BreadcrumbItem>,
    sep: usize,
    avail: usize,
    min_head_items: usize,
    min_tail_items: usize,
    ellipsis: String,
    sym: Seq<char>,
)
    requires
        items.len() >= 3,
        avail > 0,
        run_cost(item_widths(items, sym), sep as int, 0, items.len() as int) > avail,
        middle_cost(item_widths(items, sym), sep as int, display_width(ellipsis@) as int, 1, items.len() - 1) <= avail,
    ensures
        exists|h: int, t: int|
            #![trigger middle_cost(item_widths(items, sym), sep as int, display_width(ellipsis@) as int, h, t)]
            {
                &&& 1 <= h < t <= items.len() - 1
                &&& layout(
                    items,
                    sep as int,
                    avail as int,
                    TruncateStrategy::Middle { min_head_items, min_tail_items, ellipsis },
                    sym,
                ) == items_run(0, h) + seq![
                    ElementView::Separator,
                    ElementView::Ellipsis { text: ellipsis@ },
                    ElementView::Separator,
                ] + items_run(t, items.len() as int)
                &&& middle_cost(item_widths(items, sym), sep as int, display_width(ellipsis@) as int, h, t) <= avail
                &&& middle_cost(item_widths(items, sym), sep as int, display_width(ellipsis@) as int, h, t - 1) > avail
                &&& middle_cost(item_widths(items, sym), sep as int, display_width(ellipsis@) as int, h + 1, t) > avail
            },
{
    let w = item_widths(items, sym);
    let ew = display_width(ellipsis@) as int;
    let n = items.len() as int;
    let sep = sep as int;
    let avail = avail as int;
    let head_req = if min_head_items > 1 {
        min_head_items as int
    } else {
        1
    };
    let tail_req = if min_tail_items > 1 {
        min_tail_items as int
    } else {
        1
    };
    lemma_head_phase_fits(w, sep, avail, ew, head_req, 1, n - 1);
    crate::layout_spec::lemma_middle_bounds(w, sep, avail, min_head_items as int, min_tail_items as int, ew);
    let h1 = middle_head_phase(w, sep, avail, ew, head_req, 1, n - 1);
    lemma_tail_phase_fits(w, sep, avail, ew, tail_req, h1, n - 1);
    let t2 = middle_tail_phase(w, sep, avail, ew, tail_req, h1, n - 1);
    lemma_grow_phase_fits(w, sep, avail, ew, h1, t2);
    lemma_grow_phase_maximal(w, sep, avail, ew, h1, t2);
    let (h, t) = middle_bounds(w, sep, avail, min_head_items as int, min_tail_items as int, ew);
    if h >= t {
        // All segments would then fit, which they do not.
        assert(h == t);
        lemma_run_cost_split(w, sep, 0, h, n);
        crate::layout_spec::lemma_run_cost_nonneg(w, sep, 0, h);
        crate::layout_spec::lemma_run_cost_nonneg(w, sep, h, n);
        assert(false);
    }
    let v = layout(
        items,
        sep,
        avail,
        TruncateStrategy::Middle { min_head_items, min_tail_items, ellipsis },
        sym,
    );
    assert(v == items_run(0, h) + seq![
        ElementView::Separator,
        ElementView::Ellipsis { text: ellipsis@ },
        ElementView::Separator,
    ] + items_run(t, n));
}

proof fn lemma_clip_count_stops(w: Seq<usize>, sep: int, avail: int, i: int)
    requires
        0 <= i <= w.len(),
    ensures
        clip_count(w, sep, avail, i) == w.len() || run_cost(w, sep, 0, clip_count(w, sep, avail, i) + 1) > avail,
    decreases w.len() - i,
{
    if i < w.len() && run_cost(w, sep, 0, i + 1) <= avail {
        lemma_clip_count_stops(w, sep, avail, i + 1);
    }
}

/// `Clip` keeps the longest run of leading segments that fits: its layout is
/// the first `k` segments with their separators, they take at most the
/// available columns, and when any segment is left out, the first `k + 1`
/// would not fit.
pub proof fn law_clip_is_maximal(items: Seq<BreadcrumbItem>, sep: usize, avail: usize, sym: Seq<char>)
    requires
        items.len() > 0,
        avail > 0,
    ensures
        exists|k: int|
            #![trigger full_layout(k)]
            {
                &&& 0 <= k <= items.len()
                &&& layout(items, sep as int, avail as int, TruncateStrategy::Clip, sym) == full_layout(k)
                &&& run_cost(item_widths(items, sym), sep as int, 0, k) <= avail
                &&& k < items.len() ==> run_cost(item_widths(items, sym), sep as int, 0, k + 1) > avail
            },
{
    let n = items.len() as int;
    let w = item_widths(items, sym);
    if run_cost(w, sep as int, 0, n) <= avail {
        assert(full_layout(n) == layout(items, sep as int, avail as int, TruncateStrategy::Clip, sym));
    } else {
        crate::layout_spec::lemma_clip_count_bounds(w, sep as int, avail as int, 0);
        lemma_clip_count_fits(w, sep as int, avail as int, 0);
        lemma_clip_count_stops(w, sep as int, avail as int, 0);
        let k = clip_count(w, sep as int, avail as int, 0);
        assert(full_layout(k) == layout(items, sep as int, avail as int, TruncateStrategy::Clip, sym));
    }
}

proof fn lemma_start_tail_stops(w: Seq<usize>, sep: int, avail: int, ew: int, s: int)
    requires
        0 <= s,
    ensures
        start_tail(w, sep, avail, ew, s) == 0 || ew + sep + run_cost(
            w,
            sep,
            start_tail(w, sep, avail, ew, s) - 1,
            w.len() as int,
        ) > avail,
    decreases s,
{
    if s > 0 && ew + sep + run_cost(w, sep, s - 1, w.len() as int) <= avail {
        lemma_start_tail_stops(w, sep, avail, ew, s - 1);
    }
}

/// `Start` keeps the longest run of trailing segments that fits after the
/// ellipsis: when the trail does not fit but the ellipsis and the last
/// segment do, the layout is the ellipsis, a separator and the segments
/// `t..n`, which fit, while the segments `t - 1..n` would not.
pub proof fn law_start_is_maximal(
    items: Seq<BreadcrumbItem>,
    sep: usize,
    avail: usize,
    min_tail_items: usize,
    ellipsis: String,
    sym: Seq<char>,
)
    requires
        avail > 0,
        items.len() >= 1,
        run_cost(item_widths(items, sym), sep as int, 0, items.len() as int) > avail,
        display_width(ellipsis@) + sep + item_widths(items, sym)[items.len() - 1] <= avail,
    ensures
        exists|t: int|
            #![trigger items_run(t, items.len() as int)]
            {
                &&& 1 <= t <= items.len() - 1
                &&& layout(
                    items,
                    sep as int,
                    avail as int,
                    TruncateStrategy::Start { min_tail_items, ellipsis },
                    sym,
                ) == seq![ElementView::Ellipsis { text: ellipsis@ }, ElementView::Separator] + items_run(
                    t,
                    items.len() as int,
                )
                &&& display_width(ellipsis@) + sep + run_cost(item_widths(items, sym), sep as int, t, items.len() as int)
                    <= avail
                &&& display_width(ellipsis@) + sep + run_cost(
                    item_widths(items, sym),
                    sep as int,
                    t - 1,
                    items.len() as int,
                ) > avail
            },
{
    let n = items.len() as int;
    let w = item_widths(items, sym);
    let ew = display_width(ellipsis@) as int;
    let sep = sep as int;
    let avail = avail as int;
    assert(run_cost(w, sep, n - 1, n) == w[n - 1] as int);
    lemma_start_tail_fits(w, sep, avail, ew, n - 1);
    lemma_start_tail_stops(w, sep, avail, ew, n - 1);
    crate::layout_spec::lemma_start_tail_bounds(w, sep, avail, ew, n - 1);
    let t = start_tail(w, sep, avail, ew, n - 1);
    if t == 0 {
        assert(false);
    }
    assert(items_run(t, n) == items_run(t, n));
}

proof fn lemma_end_count_stops(w: Seq<usize>, sep: int, avail: int, min_head: int, ew: int, i: int)
    requires
        0 <= i <= w.len(),
    ensures
        end_count(w, sep, avail, min_head, ew, i) == w.len() || !end_include(
            w,
            sep,
            avail,
            min_head,
            ew,
            end_count(w, sep, avail, min_head, ew, i),
        ),
    decreases w.len() - i,
{
    if i < w.len() && end_include(w, sep, avail, min_head, ew, i) {
        lemma_end_count_stops(w, sep, avail, min_head, ew, i + 1);
    }
}

/// `End` keeps the longest run of leading segments that fits before the
/// ellipsis: when the trail does not fit but the ellipsis does, the first
/// `k` segments are kept and segment `k` would not fit with the ellipsis;
/// the kept segments are followed by the ellipsis when it fits after them,
/// and otherwise stand alone (the required root, shown without one); with
/// no segment kept, the ellipsis is shown alone.
pub proof fn law_end_is_maximal(
    items: Seq<BreadcrumbItem>,
    sep: usize,
    avail: usize,
    min_head_items: usize,
    ellipsis: String,
    sym: Seq<char>,
)
    requires
        avail > 0,
        items.len() >= 1,
        run_cost(item_widths(items, sym), sep as int, 0, items.len() as int) > avail,
        display_width(ellipsis@) <= avail,
    ensures
        exists|k: int|
            #![trigger items_run(0, k)]
            {
                let w = item_widths(items, sym);
                let ew = display_width(ellipsis@) as int;
                let v = layout(items, sep as int, avail as int, TruncateStrategy::End { min_head_items, ellipsis }, sym);
                &&& 0 <= k < items.len()
                &&& run_cost(w, sep as int, 0, k + 1) + sep + ew > avail
                &&& {
                    ||| (k > 0 && run_cost(w, sep as int, 0, k) + sep + ew <= avail && v == items_run(0, k) + seq![
                        ElementView::Separator,
                        ElementView::Ellipsis { text: ellipsis@ },
                    ])
                    ||| (k == 1 && w[0] <= avail && min_head_items >= 1 && v == items_run(0, k))
                    ||| (k == 0 && v == seq![ElementView::Ellipsis { text: ellipsis@ }])
                }
            },
{
    let n = items.len() as int;
    let w = item_widths(items, sym);
    let ew = display_width(ellipsis@) as int;
    let sep = sep as int;
    let avail = avail as int;
    crate::layout_spec::lemma_end_count_bounds(w, sep, avail, min_head_items as int, ew, 0);
    lemma_end_count_last(w, sep, avail, min_head_items as int, ew, 0);
    lemma_end_count_stops(w, sep, avail, min_head_items as int, ew, 0);
    let k = end_count(w, sep, avail, min_head_items as int, ew, 0);
    crate::layout_spec::lemma_run_cost_nonneg(w, sep, 0, n);
    if k == n {
        if n == 1 {
            assert(run_cost(w, sep, 0, 1) == w[0] as int);
        }
        assert(false);
    }
    if k == 1 {
        assert(run_cost(w, sep, 0, 1) == w[0] as int);
    }
    assert(items_run(0, k) == items_run(0, k));
}

proof fn lemma_head_phase_reaches(w: Seq<usize>, sep: int, avail: int, ew: int, req: int, h: int, t: int, r: int)
    requires
        0 <= sep,
        1 <= h <= r <= t < w.len(),
        r <= req,
        middle_cost(w, sep, ew, r, t) <= avail,
    ensures
        r <= middle_head_phase(w, sep, avail, ew, req, h, t),
    decreases r - h,
{
    crate::layout_spec::lemma_head_phase_bounds(w, sep, avail, ew, req, h, t);
    if h < r {
        crate::layout_spec::lemma_run_cost_mono(w, sep, 0, h + 1, r);
        lemma_head_phase_reaches(w, sep, avail, ew, req, h + 1, t, r);
    }
}

/// `Middle` honours its head minimum: when the trail does not fit and the
/// first `r` segments (`r` the head minimum, at least 1 and at most all but
/// the last), the ellipsis and the last segment fit with separators, the
/// layout keeps at least those `r` leading segments before the ellipsis.
pub proof fn law_middle_honours_head_minimum(
    items: Seq<BreadcrumbItem>,
    sep: usize,
    avail: usize,
    min_head_items: usize,
    min_tail_items: usize,
    ellipsis: String,
    sym: Seq<char>,
)
    requires
        avail > 0,
        items.len() >= 3,
        run_cost(item_widths(items, sym), sep as int, 0, items.len() as int) > avail,
        ({
            let req = if min_head_items > 1 { min_head_items as int } else { 1 };
            let r = if req < items.len() - 1 { req } else { items.len() - 1 };
            middle_cost(item_widths(items, sym), sep as int, display_width(ellipsis@) as int, r, items.len() - 1)
                <= avail
        }),
    ensures
        exists|h: int, t: int|
            #![trigger items_run(0, h), items_run(t, items.len() as int)]
            {
                let req = if min_head_items > 1 { min_head_items as int } else { 1 };
                let r = if req < items.len() - 1 { req } else { items.len() - 1 };
                &&& r <= h < t <= items.len() - 1
                &&& layout(
                    items,
                    sep as int,
                    avail as int,
                    TruncateStrategy::Middle { min_head_items, min_tail_items, ellipsis },
                    sym,
                ) == items_run(0, h) + seq![
                    ElementView::Separator,
                    ElementView::Ellipsis { text: ellipsis@ },
                    ElementView::Separator,
                ] + items_run(t, items.len() as int)
            },
{
    let n = items.len() as int;
    let w = item_widths(items, sym);
    let ew = display_width(ellipsis@) as int;
    let sep = sep as int;
    let avail = avail as int;
    let req = if min_head_items > 1 { min_head_items as int } else { 1 };
    let r = if req < n - 1 { req } else { n - 1 };
    let tail_req = if min_tail_items > 1 { min_tail_items as int } else { 1 };
    crate::layout_spec::lemma_run_cost_mono(w, sep, 0, 1, r);
    assert(middle_cost(w, sep, ew, 1, n - 1) <= avail);
    lemma_head_phase_reaches(w, sep, avail, ew, req, 1, n - 1, r);
    lemma_head_phase_fits(w, sep, avail, ew, req, 1, n - 1);
    crate::layout_spec::lemma_head_phase_bounds(w, sep, avail, ew, req, 1, n - 1);
    let h1 = middle_head_phase(w, sep, avail, ew, req, 1, n - 1);
    crate::layout_spec::lemma_tail_phase_bounds(w, sep, avail, ew, tail_req, h1, n - 1);
    let t2 = middle_tail_phase(w, sep, avail, ew, tail_req, h1, n - 1);
    crate::layout_spec::lemma_grow_phase_bounds(w, sep, avail, ew, h1, t2);
    lemma_tail_phase_fits(w, sep, avail, ew, tail_req, h1, n - 1);
    lemma_grow_phase_fits(w, sep, avail, ew, h1, t2);
    crate::layout_spec::lemma_middle_bounds(w, sep, avail, min_head_items as int, min_tail_items as int, ew);
    let (h, t) = middle_bounds(w, sep, avail, min_head_items as int, min_tail_items as int, ew);
    assert(r <= h);
    if h >= t {
        assert(h == t);
        lemma_run_cost_split(w, sep, 0, h, n);
        crate::layout_spec::lemma_run_cost_nonneg(w, sep, 0, h);
        crate::layout_spec::lemma_run_cost_nonneg(w, sep, h, n);
        assert(false);
    }
    assert(items_run(0, h) == items_run(0, h) && items_run(t, n) == items_run(t, n));
}

proof fn lemma_head_phase_at_most(w: Seq<usize>, sep: int, avail: int, ew: int, req: int, h: int, t: int)
    requires
        h <= req,
    ensures
        middle_head_phase(w, sep, avail, ew, req, h, t) <= req,
    decreases t - h,
{
    if h < req && h < t && middle_cost(w, sep, ew, h + 1, t) <= avail {
        lemma_head_phase_at_most(w, sep, avail, ew, req, h + 1, t);
    }
}

proof fn lemma_tail_phase_reaches(w: Seq<usize>, sep: int, avail: int, ew: int, req: int, h: int, t: int, s: int)
    requires
        0 <= sep,
        0 <= h <= s <= t <= w.len(),
        w.len() - s <= req,
        middle_cost(w, sep, ew, h, s) <= avail,
    ensures
        middle_tail_phase(w, sep, avail, ew, req, h, t) <= s,
    decreases t - h,
{
    crate::layout_spec::lemma_tail_phase_bounds(w, sep, avail, ew, req, h, t);
    if t > s {
        crate::layout_spec::lemma_run_cost_mono_left(w, sep, s, t - 1, w.len() as int);
        lemma_tail_phase_reaches(w, sep, avail, ew, req, h, t - 1, s);
    }
}

/// `Middle` honours both its minimums: when the trail does not fit and the
/// first `hr` segments, the ellipsis and the last `tr` segments (`hr` and
/// `tr` the head and tail minimums, each at least 1, leaving something to
/// collapse) fit with separators, the layout keeps at least those leading
/// and those trailing segments.
pub proof fn law_middle_honours_minimums(
    items: Seq<BreadcrumbItem>,
    sep: usize,
    avail: usize,
    min_head_items: usize,
    min_tail_items: usize,
    ellipsis: String,
    sym: Seq<char>,
)
    requires
        avail > 0,
        items.len() >= 3,
        run_cost(item_widths(items, sym), sep as int, 0, items.len() as int) > avail,
        ({
            let hr = if min_head_items > 1 { min_head_items as int } else { 1 };
            let tr = if min_tail_items > 1 { min_tail_items as int } else { 1 };
            &&& hr + tr < items.len()
            &&& middle_cost(item_widths(items, sym), sep as int, display_width(ellipsis@) as int, hr, items.len() - tr)
                <= avail
        }),
    ensures
        exists|h: int, t: int|
            #![trigger items_run(0, h), items_run(t, items.len() as int)]
            {
                let hr = if min_head_items > 1 { min_head_items as int } else { 1 };
                let tr = if min_tail_items > 1 { min_tail_items as int } else { 1 };
                &&& hr <= h < t <= items.len() - tr
                &&& layout(
                    items,
                    sep as int,
                    avail as int,
                    TruncateStrategy::Middle { min_head_items, min_tail_items, ellipsis },
                    sym,
                ) == items_run(0, h) + seq![
                    ElementView::Separator,
                    ElementView::Ellipsis { text: ellipsis@ },
                    ElementView::Separator,
                ] + items_run(t, items.len() as int)
            },
{
    let n = items.len() as int;
    let w = item_widths(items, sym);
    let ew = display_width(ellipsis@) as int;
    let sep = sep as int;
    let avail = avail as int;
    let hr = if min_head_items > 1 { min_head_items as int } else { 1 };
    let tr = if min_tail_items > 1 { min_tail_items as int } else { 1 };
    crate::layout_spec::lemma_run_cost_mono(w, sep, 0, 1, hr);
    crate::layout_spec::lemma_run_cost_mono_left(w, sep, n - tr, n - 1, n);
    crate::layout_spec::lemma_run_cost_mono_left(w, sep, hr, n - tr, n);
    assert(middle_cost(w, sep, ew, 1, n - 1) <= avail);
    assert(middle_cost(w, sep, ew, hr, n - 1) <= avail);
    lemma_head_phase_reaches(w, sep, avail, ew, hr, 1, n - 1, hr);
    lemma_head_phase_at_most(w, sep, avail, ew, hr, 1, n - 1);
    lemma_head_phase_fits(w, sep, avail, ew, hr, 1, n - 1);
    let h1 = middle_head_phase(w, sep, avail, ew, hr, 1, n - 1);
    assert(h1 == hr);
    lemma_tail_phase_reaches(w, sep, avail, ew, tr, h1, n - 1, n - tr);
    crate::layout_spec::lemma_tail_phase_bounds(w, sep, avail, ew, tr, h1, n - 1);
    lemma_tail_phase_fits(w, sep, avail, ew, tr, h1, n - 1);
    let t2 = middle_tail_phase(w, sep, avail, ew, tr, h1, n - 1);
    crate::layout_spec::lemma_grow_phase_bounds(w, sep, avail, ew, h1, t2);
    lemma_grow_phase_fits(w, sep, avail, ew, h1, t2);
    crate::layout_spec::lemma_middle_bounds(w, sep, avail, min_head_items as int, min_tail_items as int, ew);
    let (h, t) = middle_bounds(w, sep, avail, min_head_items as int, min_tail_items as int, ew);
    if h >= t {
        assert(h == t);
        lemma_run_cost_split(w, sep, 0, h, n);
        crate::layout_spec::lemma_run_cost_nonneg(w, sep, 0, h);
        crate::layout_spec::lemma_run_cost_nonneg(w, sep, h, n);
        assert(false);
    }
    assert(items_run(0, h) == items_run(0, h) && items_run(t, n) == items_run(t, n));
}

/// How `ShortenNames` labels the segments it shows once the trail no longer
/// fits whole: every segment before the deepest `preserve_tail_items` (at
/// least one) under the first `max_abbrev_len` characters of its label, the
/// others under their full label.
pub proof fn law_shorten_names_abbreviation_rule(
    items: Seq<BreadcrumbItem>,
    sep: usize,
    avail: usize,
    max_abbrev_len: usize,
    preserve_tail_items: usize,
    ellipsis: String,
    sym: Seq<char>,
)
    requires
        avail > 0,
        run_cost(item_widths(items, sym), sep as int, 0, items.len() as int) > avail,
    ensures
        ({
            let v = layout(
                items,
                sep as int,
                avail as int,
                TruncateStrategy::ShortenNames { max_abbrev_len, preserve_tail_items, ellipsis },
                sym,
            );
            let keep = if preserve_tail_items > 1 { preserve_tail_items as int } else { 1 };
            forall|k: int|
                0 <= k < v.len() && #[trigger] v[k] is Item ==> v[k]->abbreviated == if v[k]->index < items.len() - keep {
                    let text = items[v[k]->index].label.text();
                    Some(text.take(if (max_abbrev_len as int) < text.len() { max_abbrev_len as int } else { text.len() as int }))
                } else {
                    None::<Seq<char>>
                }
        }),
{
    let n = items.len() as int;
    let ml = max_abbrev_len as int;
    let pr = preserve_tail_items as int;
    let strategy = TruncateStrategy::ShortenNames { max_abbrev_len, preserve_tail_items, ellipsis };
    let v = layout(items, sep as int, avail as int, strategy, sym);
    let keep = if preserve_tail_items > 1 { preserve_tail_items as int } else { 1 };
    if n > 0 {
        crate::layout_spec::lemma_layout_indices(items, sep as int, avail as int, strategy, sym);
        let sw = shortened_widths(items, ml, pr, sym);
        let mv = middle_layout(sw, sep as int, avail as int, 1, pr, ellipsis@);
        assert forall|k: int| 0 <= k < v.len() && #[trigger] v[k] is Item implies v[k]->abbreviated == if v[k]->index
            < n - keep {
            let text = items[v[k]->index].label.text();
            Some(text.take(if ml < text.len() { ml } else { text.len() as int }))
        } else {
            None::<Seq<char>>
        } by {
            assert(crate::layout_spec::item_index_ok(v[k], n));
            let i = v[k]->index;
            let text = items[i].label.text();
            assert(text.take(text.len() as int) =~= text);
            if run_cost(sw, sep as int, 0, n) <= avail {
                assert(k % 2 == 0);
            } else {
                assert(mv[k] is Item);
            }
            assert(v[k]->abbreviated == shortened_label(items, i, ml, pr));
        }
    }
}

proof fn lemma_span_piece_styles(spans: Seq<crate::item::LabelSpan>, base: ratatui::style::Style, selected: bool)
    ensures
        forall|k: int|
            0 <= k < crate::render::span_pieces(spans, base, selected).len() ==> {
                let p = #[trigger] crate::render::span_pieces(spans, base, selected)[k];
                if selected {
                    p.overlay == Some(base)
                } else {
                    p.style == base
                }
            },
    decreases spans.len(),
{
    if spans.len() > 0 {
        lemma_span_piece_styles(spans.drop_last(), base, selected);
        let a = crate::render::span_pieces(spans.drop_last(), base, selected);
        let s = crate::render::span_pieces(spans, base, selected);
        assert forall|k: int| 0 <= k < s.len() implies {
            let p = #[trigger] s[k];
            if selected {
                p.overlay == Some(base)
            } else {
                p.style == base
            }
        } by {
            if k < a.len() {
                assert(s[k] == a[k]);
            }
        }
    }
}

/// The style a segment's label is drawn in: when selected, its own selected
/// style, else the widget's, goes over every piece of the label; otherwise
/// every piece starts from, for the last segment, the widget's active style,
/// else the segment's own style, else the widget's item style, and for any
/// other segment its own style, else the widget's item style.
pub proof fn law_label_styles(b: Breadcrumb, index: int, abbreviated: Option<Seq<char>>, selected: Option<usize>)
    requires
        0 <= index < b.items@.len(),
    ensures
        forall|k: int|
            0 <= k < b.label_pieces(index, abbreviated, selected).len() ==> {
                let p = #[trigger] b.label_pieces(index, abbreviated, selected)[k];
                let item = b.items@[index];
                if selected == Some(index as usize) {
                    let sel = match item.selected_style {
                        Some(s) => s,
                        None => b.selected_style,
                    };
                    if abbreviated is Some {
                        p.style == sel
                    } else {
                        p.overlay == Some(sel)
                    }
                } else if index == b.items@.len() - 1 {
                    p.style == match b.active_style {
                        Some(s) => s,
                        None => match item.style {
                            Some(s) => s,
                            None => b.item_style,
                        },
                    }
                } else {
                    p.style == match item.style {
                        Some(s) => s,
                        None => b.item_style,
                    }
                }
            },
{
    let base = b.item_base_style(index, selected);
    lemma_span_piece_styles(b.items@[index].label.spans@, base, selected == Some(index as usize));
}

/// The segments named in `v` come in increasing index order, each at most
/// once.
pub open spec fn segments_in_order(v: Seq<ElementView>) -> bool {
    forall|a: int, b: int|
        0 <= a < b < v.len() && #[trigger] v[a] is Item && #[trigger] v[b] is Item ==> v[a]->index < v[b]->index
}

/// Every segment named in `v` has an index of at least `m`.
pub open spec fn indices_from(v: Seq<ElementView>, m: int) -> bool {
    forall|k: int| 0 <= k < v.len() && #[trigger] v[k] is Item ==> m <= v[k]->index
}

proof fn lemma_items_run_order(lo: int, hi: int)
    requires
        0 <= lo,
    ensures
        segments_in_order(items_run(lo, hi)),
        indices_from(items_run(lo, hi), lo),
        crate::layout_spec::indices_below(items_run(lo, hi), hi),
{
    let v = items_run(lo, hi);
    if hi > lo {
        assert forall|a: int, b: int|
            0 <= a < b < v.len() && #[trigger] v[a] is Item && #[trigger] v[b] is Item implies v[a]->index
            < v[b]->index by {
            assert(a % 2 == 0 && b % 2 == 0);
            assert(a / 2 < b / 2) by (nonlinear_arith)
                requires
                    0 <= a < b,
                    a % 2 == 0,
                    b % 2 == 0,
            ;
        }
        assert forall|k: int| 0 <= k < v.len() implies #[trigger] crate::layout_spec::item_index_ok(v[k], hi) by {
            if k % 2 == 0 {
                assert(k / 2 < hi - lo);
            }
        }
    }
}

proof fn lemma_order_concat(a: Seq<ElementView>, b: Seq<ElementView>, m: int)
    requires
        segments_in_order(a),
        segments_in_order(b),
        forall|k: int| 0 <= k < a.len() && #[trigger] a[k] is Item ==> a[k]->index < m,
        indices_from(b, m),
    ensures
        segments_in_order(a + b),
{
    let v = a + b;
    assert forall|i: int, j: int|
        0 <= i < j < v.len() && #[trigger] v[i] is Item && #[trigger] v[j] is Item implies v[i]->index
        < v[j]->index by {
        if j < a.len() {
            assert(v[i] == a[i] && v[j] == a[j]);
        } else if i >= a.len() {
            assert(v[i] == b[i - a.len()] && v[j] == b[j - a.len()]);
        } else {
            assert(v[i] == a[i] && v[j] == b[j - a.len()]);
        }
    }
}

proof fn lemma_no_items_in_order(v: Seq<ElementView>, m: int)
    requires
        forall|k: int| 0 <= k < v.len() ==> !(#[trigger] v[k] is Item),
    ensures
        segments_in_order(v),
        indices_from(v, m),
        forall|k: int| 0 <= k < v.len() && #[trigger] v[k] is Item ==> v[k]->index < m,
{
}

proof fn lemma_start_layout_order(w: Seq<usize>, sep: int, avail: int, e: Seq<char>)
    requires
        w.len() >= 1,
    ensures
        segments_in_order(start_layout(w, sep, avail, e)),
{
    let n = w.len() as int;
    let ew = display_width(e) as int;
    crate::layout_spec::lemma_start_tail_bounds(w, sep, avail, ew, n - 1);
    let t = start_tail(w, sep, avail, ew, n - 1);
    lemma_items_run_order(0, n);
    lemma_items_run_order(t, n);
    let head = seq![ElementView::Ellipsis { text: e }, ElementView::Separator];
    lemma_no_items_in_order(head, t);
    lemma_order_concat(head, items_run(t, n), t);
    lemma_no_items_in_order(seq![ElementView::Ellipsis { text: e }], 0);
    lemma_items_run_order(n - 1, n);
    assert(seq![item_el(n - 1)] =~= items_run(n - 1, n));
}

proof fn lemma_middle_layout_order(w: Seq<usize>, sep: int, avail: int, min_head: int, min_tail: int, e: Seq<char>)
    requires
        w.len() >= 1,
    ensures
        segments_in_order(middle_layout(w, sep, avail, min_head, min_tail, e)),
{
    let n = w.len() as int;
    let ew = display_width(e) as int;
    lemma_start_layout_order(w, sep, avail, e);
    if n >= 3 {
        lemma_middle_bounds(w, sep, avail, min_head, min_tail, ew);
        let (h, t) = middle_bounds(w, sep, avail, min_head, min_tail, ew);
        lemma_items_run_order(0, n);
        lemma_items_run_order(0, h);
        lemma_items_run_order(t, n);
        let mid = seq![ElementView::Separator, ElementView::Ellipsis { text: e }, ElementView::Separator];
        lemma_no_items_in_order(mid, h);
        let left = items_run(0, h);
        assert forall|k: int| 0 <= k < left.len() && #[trigger] left[k] is Item implies left[k]->index < h by {
            assert(crate::layout_spec::item_index_ok(left[k], h));
        }
        lemma_order_concat(left, mid, h);
        let lm = left + mid;
        assert forall|k: int| 0 <= k < lm.len() && #[trigger] lm[k] is Item implies lm[k]->index < t by {
            if k < left.len() {
                assert(lm[k] == left[k]);
                assert(crate::layout_spec::item_index_ok(left[k], h));
            } else {
                assert(lm[k] == mid[k - left.len()]);
            }
        }
        lemma_order_concat(lm, items_run(t, n), t);
    }
}

proof fn lemma_end_layout_order(w: Seq<usize>, sep: int, avail: int, min_head: int, e: Seq<char>)
    requires
        w.len() >= 1,
    ensures
        segments_in_order(end_layout(w, sep, avail, min_head, e)),
{
    let n = w.len() as int;
    let ew = display_width(e) as int;
    crate::layout_spec::lemma_end_count_bounds(w, sep, avail, min_head, ew, 0);
    let k = end_count(w, sep, avail, min_head, ew, 0);
    lemma_items_run_order(0, n);
    lemma_items_run_order(0, k);
    let tail = seq![ElementView::Separator, ElementView::Ellipsis { text: e }];
    lemma_no_items_in_order(tail, k);
    let left = items_run(0, k);
    assert forall|j: int| 0 <= j < left.len() && #[trigger] left[j] is Item implies left[j]->index < k by {
        assert(crate::layout_spec::item_index_ok(left[j], k));
    }
    lemma_order_concat(left, tail, k);
    lemma_no_items_in_order(seq![ElementView::Ellipsis { text: e }], 0);
}

/// A layout names each segment at most once, and in the trail's order:
/// whatever the strategy drops or abbreviates, what remains keeps its order.
pub proof fn law_layout_in_order(
    items: Seq<BreadcrumbItem>,
    sep: usize,
    avail: usize,
    strategy: TruncateStrategy,
    sym: Seq<char>,
)
    ensures
        segments_in_order(layout(items, sep as int, avail as int, strategy, sym)),
        crate::layout_spec::indices_below(layout(items, sep as int, avail as int, strategy, sym), items.len() as int),
{
    let n = items.len() as int;
    let w = item_widths(items, sym);
    let sep = sep as int;
    let avail = avail as int;
    crate::layout_spec::lemma_layout_indices(items, sep, avail, strategy, sym);
    if n == 0 || avail == 0 {
        assert(layout(items, sep, avail, strategy, sym) =~= Seq::<ElementView>::empty());
    } else {
        lemma_items_run_order(0, n);
        match strategy {
            TruncateStrategy::Clip => {
                lemma_items_run_order(0, clip_count(w, sep, avail, 0));
            },
            TruncateStrategy::Start { ellipsis, .. } => {
                lemma_start_layout_order(w, sep, avail, ellipsis@);
            },
            TruncateStrategy::Middle { min_head_items, min_tail_items, ellipsis } => {
                lemma_middle_layout_order(w, sep, avail, min_head_items as int, min_tail_items as int, ellipsis@);
            },
            TruncateStrategy::End { min_head_items, ellipsis } => {
                lemma_end_layout_order(w, sep, avail, min_head_items as int, ellipsis@);
            },
            TruncateStrategy::ShortenNames { max_abbrev_len, preserve_tail_items, ellipsis } => {
                let sw = shortened_widths(items, max_abbrev_len as int, preserve_tail_items as int, sym);
                lemma_middle_layout_order(sw, sep, avail, 1, preserve_tail_items as int, ellipsis@);
                let full = shortened_full_layout(items, max_abbrev_len as int, preserve_tail_items as int);
                assert forall|a: int, b: int|
                    0 <= a < b < full.len() && #[trigger] full[a] is Item && #[trigger] full[b] is Item implies full[a]->index
                    < full[b]->index by {
                    assert(a % 2 == 0 && b % 2 == 0);
                    assert(a / 2 < b / 2) by (nonlinear_arith)
                        requires
                            0 <= a < b,
                            a % 2 == 0,
                            b % 2 == 0,
                    ;
                }
            },
        }
    }
}

/// A trail that fits is shown whole, whatever the strategy; an empty trail,
/// or one given no columns, shows nothing.
pub proof fn law_layout_whole_when_it_fits(
    items: Seq<BreadcrumbItem>,
    sep: usize,
    avail: usize,
    strategy: TruncateStrategy,
    sym: Seq<char>,
)
    ensures
        items.len() == 0 || avail == 0 ==> layout(items, sep as int, avail as int, strategy, sym).len() == 0,
        items.len() > 0 && avail > 0 && run_cost(item_widths(items, sym), sep as int, 0, items.len() as int)
            <= avail ==> layout(items, sep as int, avail as int, strategy, sym) == full_layout(items.len() as int),
{
}

/// The last element of a sequence of segments and separators from `lo` to
/// `hi` is segment `hi - 1`, and its first is segment `lo`.
proof fn lemma_items_run_ends(lo: int, hi: int)
    requires
        lo < hi,
    ensures
        items_run(lo, hi).len() >= 1,
        items_run(lo, hi).last() == item_el(hi - 1),
        items_run(lo, hi)[0] == item_el(lo),
{
    let v = items_run(lo, hi);
    let len = v.len() as int;
    assert((len - 1) % 2 == 0 && (len - 1) / 2 == hi - 1 - lo) by (nonlinear_arith)
        requires
            len == 2 * (hi - lo) - 1,
            hi - lo >= 1,
    ;
}

/// `Start` keeps the deepest segment whenever both it and the ellipsis fit
/// in the available columns (or the whole trail fits).
pub proof fn law_start_keeps_leaf(
    items: Seq<BreadcrumbItem>,
    sep: usize,
    avail: usize,
    min_tail_items: usize,
    ellipsis: String,
    sym: Seq<char>,
)
    requires
        items.len() >= 1,
        avail > 0,
        display_width(ellipsis@) <= avail,
        item_widths(items, sym)[items.len() - 1] <= avail,
    ensures
        ({
            let v = layout(items, sep as int, avail as int, TruncateStrategy::Start { min_tail_items, ellipsis }, sym);
            v.len() >= 1 && v.last() == item_el(items.len() - 1)
        }),
{
    let n = items.len() as int;
    let w = item_widths(items, sym);
    let ew = display_width(ellipsis@) as int;
    let sep = sep as int;
    let avail = avail as int;
    lemma_items_run_ends(0, n);
    crate::layout_spec::lemma_start_tail_bounds(w, sep, avail, ew, n - 1);
    let t = start_tail(w, sep, avail, ew, n - 1);
    lemma_items_run_ends(t, n);
    let head = seq![ElementView::Ellipsis { text: ellipsis@ }, ElementView::Separator];
    assert((head + items_run(t, n)).last() == items_run(t, n).last());
}

/// `Middle` keeps the deepest segment whenever both it and the ellipsis fit
/// (or the whole trail fits), and keeps the root segment whenever the root,
/// the ellipsis and the deepest segment fit side by side, with separators,
/// in a trail of three or more segments (or the whole trail fits).
pub proof fn law_middle_keeps_root_and_leaf(
    items: Seq<BreadcrumbItem>,
    sep: usize,
    avail: usize,
    min_head_items: usize,
    min_tail_items: usize,
    ellipsis: String,
    sym: Seq<char>,
)
    requires
        items.len() >= 1,
        avail > 0,
    ensures
        ({
            let v = layout(
                items,
                sep as int,
                avail as int,
                TruncateStrategy::Middle { min_head_items, min_tail_items, ellipsis },
                sym,
            );
            let n = items.len() as int;
            let w = item_widths(items, sym);
            let ew = display_width(ellipsis@) as int;
            &&& (ew <= avail && w[n - 1] <= avail) ==> v.len() >= 1 && v.last() == item_el(n - 1)
            &&& (run_cost(w, sep as int, 0, n) <= avail || (n >= 3 && middle_cost(w, sep as int, ew, 1, n - 1)
                <= avail)) ==> v.len() >= 1 && v[0] == item_el(0)
        }),
{
    let n = items.len() as int;
    let w = item_widths(items, sym);
    let ew = display_width(ellipsis@) as int;
    let sep = sep as int;
    let avail = avail as int;
    lemma_items_run_ends(0, n);
    crate::layout_spec::lemma_start_tail_bounds(w, sep, avail, ew, n - 1);
    let t0 = start_tail(w, sep, avail, ew, n - 1);
    lemma_items_run_ends(t0, n);
    let head = seq![ElementView::Ellipsis { text: ellipsis@ }, ElementView::Separator];
    assert((head + items_run(t0, n)).last() == items_run(t0, n).last());
    if n >= 3 {
        lemma_middle_bounds(w, sep, avail, min_head_items as int, min_tail_items as int, ew);
        let (h, t) = middle_bounds(w, sep, avail, min_head_items as int, min_tail_items as int, ew);
        lemma_items_run_ends(0, h);
        lemma_items_run_ends(t, n);
        let mid = seq![ElementView::Separator, ElementView::Ellipsis { text: ellipsis@ }, ElementView::Separator];
        assert((items_run(0, h) + mid + items_run(t, n)).last() == items_run(t, n).last());
        assert((items_run(0, h) + mid + items_run(t, n))[0] == items_run(0, h)[0]);
    }
}

/// `End` keeps the root segment whenever the ellipsis fits and the root
/// fits beside it with a separator, or, with a minimum of one head segment,
/// the root fits on its own (or the whole trail fits).
pub proof fn law_end_keeps_root(
    items: Seq<BreadcrumbItem>,
    sep: usize,
    avail: usize,
    min_head_items: usize,
    ellipsis: String,
    sym: Seq<char>,
)
    requires
        items.len() >= 1,
        avail > 0,
        display_width(ellipsis@) <= avail,
        ({
            let w0 = item_widths(items, sym)[0] as int;
            let ew = display_width(ellipsis@) as int;
            w0 + sep + ew <= avail || (w0 <= avail && min_head_items >= 1)
        }),
    ensures
        ({
            let v = layout(items, sep as int, avail as int, TruncateStrategy::End { min_head_items, ellipsis }, sym);
            v.len() >= 1 && v[0] == item_el(0)
        }),
{
    let n = items.len() as int;
    let w = item_widths(items, sym);
    let ew = display_width(ellipsis@) as int;
    let sep = sep as int;
    let avail = avail as int;
    lemma_items_run_ends(0, n);
    crate::layout_spec::lemma_end_count_bounds(w, sep, avail, min_head_items as int, ew, 0);
    crate::layout_spec::lemma_end_count_bounds(w, sep, avail, min_head_items as int, ew, 1);
    let k = end_count(w, sep, avail, min_head_items as int, ew, 0);
    assert(run_cost(w, sep, 0, 1) == w[0] as int);
    assert(k >= 1);
    lemma_items_run_ends(0, k);
    let tail = seq![ElementView::Separator, ElementView::Ellipsis { text: ellipsis@ }];
    assert((items_run(0, k) + tail)[0] == items_run(0, k)[0]);
}

/// No segment named in `v` from index `m` on is abbreviated.
pub open spec fn unabbreviated_from(v: Seq<ElementView>, m: int) -> bool {
    forall|k: int| 0 <= k < v.len() && #[trigger] v[k] is Item && v[k]->index >= m ==> v[k]->abbreviated is None
}

/// `ShortenNames` never abbreviates the deepest `preserve_tail_items`
/// segments (at least one).
pub proof fn law_shorten_names_keeps_tail_labels(
    items: Seq<BreadcrumbItem>,
    sep: usize,
    avail: usize,
    max_abbrev_len: usize,
    preserve_tail_items: usize,
    ellipsis: String,
    sym: Seq<char>,
)
    ensures
        unabbreviated_from(
            layout(
                items,
                sep as int,
                avail as int,
                TruncateStrategy::ShortenNames { max_abbrev_len, preserve_tail_items, ellipsis },
                sym,
            ),
            items.len() - (if preserve_tail_items > 1 { preserve_tail_items as int } else { 1 }),
        ),
{
    let n = items.len() as int;
    let keep = if preserve_tail_items > 1 { preserve_tail_items as int } else { 1 };
    let sep = sep as int;
    let avail = avail as int;
    let strategy = TruncateStrategy::ShortenNames { max_abbrev_len, preserve_tail_items, ellipsis };
    let v = layout(items, sep, avail, strategy, sym);
    if n > 0 && avail > 0 {
        let ml = max_abbrev_len as int;
        let pr = preserve_tail_items as int;
        let sw = shortened_widths(items, ml, pr, sym);
        crate::layout_spec::lemma_layout_indices(items, sep, avail, strategy, sym);
        let w = item_widths(items, sym);
        let mv = middle_layout(sw, sep, avail, 1, pr, ellipsis@);
        assert forall|k: int| 0 <= k < v.len() && #[trigger] v[k] is Item && v[k]->index >= n - keep implies v[k]->abbreviated
            is None by {
            assert(crate::layout_spec::item_index_ok(v[k], n));
            if run_cost(w, sep, 0, n) <= avail {
            } else if run_cost(sw, sep, 0, n) <= avail {
                assert(k % 2 == 0);
            } else {
                assert(mv[k] is Item);
            }
        }
    }
}

/// Moving the selection forward in a non-empty trail always selects one of
/// its segments; at the last one it stays there.
pub proof fn law_next_selection_in_range(selected: Option<usize>, total: usize)
    requires
        total > 0,
    ensures
        next_selection(selected, total) matches Some(i) && i < total,
        next_selection(Some((total - 1) as usize), total) == Some((total - 1) as usize),
{
}

/// Moving the selection back in a non-empty trail selects one of its
/// segments, unless the selection was already past the end; at the first
/// one it stays there.
pub proof fn law_previous_selection_in_range(selected: Option<usize>, total: usize)
    requires
        total > 0,
        selected matches Some(c) ==> c <= total,
    ensures
        previous_selection(selected, total) matches Some(i) && i < total,
        previous_selection(Some(0), total) == Some(0usize),
{
}

/// Moving forward and then back returns to the segment the selection started
/// on, when that segment is not the last; moving back and then forward
/// returns to it when it is neither the first nor past the end.
pub proof fn law_selection_steps_undo(c: usize, total: usize)
    ensures
        c + 1 < total ==> previous_selection(next_selection(Some(c), total), total) == Some(c),
        0 < c < total ==> next_selection(previous_selection(Some(c), total), total) == Some(c),
{
}

/// Selecting the last segment twice is selecting it once, and moving forward
/// from it changes nothing.
pub proof fn law_select_last_settles(total: usize)
    ensures
        total > 0 ==> last_selection(total) == Some((total - 1) as usize),
        next_selection(last_selection(total), total) == last_selection(total),
{
}

/// `r` is a one-row rectangle on row `row` within columns `lo..hi`.
pub open spec fn rect_within(r: Rect, row: u16, lo: int, hi: int) -> bool {
    &&& r.y == row
    &&& r.height == 1
    &&& lo <= r.x
    &&& r.x + r.width <= hi
}

/// Every rectangle of `rects` lies on row `row` within columns `lo..hi`,
/// and is attached to one of the segments `0..n`.
pub open spec fn rects_within(rects: Seq<(usize, Rect)>, n: int, row: u16, lo: int, hi: int) -> bool {
    forall|k: int| 0 <= k < rects.len() ==> #[trigger] rects[k].0 < n && rect_within(rects[k].1, row, lo, hi)
}

proof fn lemma_rects_push_within(rest: Seq<(usize, Rect)>, entry: (usize, Rect), n: int, row: u16, lo: int, hi: int)
    requires
        rects_within(rest, n, row, lo, hi),
        entry.0 < n,
        rect_within(entry.1, row, lo, hi),
    ensures
        rects_within(rest.push(entry), n, row, lo, hi),
{
    let all = rest.push(entry);
    assert forall|k: int| 0 <= k < all.len() implies #[trigger] all[k].0 < n && rect_within(all[k].1, row, lo, hi) by {
        if k < rest.len() {
            assert(all[k] == rest[k]);
        }
    }
}

#[verifier::spinoff_prover]
proof fn lemma_recorded_rects_within(
    b: Breadcrumb,
    elems: Seq<ElementView>,
    selected: Option<usize>,
    sx: int,
    cap: int,
    row: u16,
    lo: int,
)
    requires
        crate::layout_spec::indices_below(elems, b.items@.len() as int),
        0 <= lo <= sx,
        0 <= cap,
        sx + cap <= u16::MAX,
    ensures
        rects_within(b.item_rects_spec(elems, selected, sx, cap, row), b.items@.len() as int, row, lo, sx + cap),
        rects_within(b.dropdown_rects_spec(elems, selected, sx, cap, row), b.items@.len() as int, row, lo, sx + cap),
        b.ellipsis_rect_spec(elems, selected, sx, cap, row) matches Some(r) ==> rect_within(r, row, lo, sx + cap),
    decreases elems.len(),
{
    assert(b.items.len() == b.items@.len());
    if elems.len() > 0 {
        let prev = elems.drop_last();
        assert(crate::layout_spec::indices_below(prev, b.items@.len() as int)) by {
            assert forall|k: int| 0 <= k < prev.len() implies #[trigger] crate::layout_spec::item_index_ok(
                prev[k],
                b.items@.len() as int,
            ) by {
                assert(prev[k] == elems[k]);
            }
        }
        assert(crate::layout_spec::item_index_ok(elems[elems.len() - 1], b.items@.len() as int));
        lemma_recorded_rects_within(b, prev, selected, sx, cap, row, lo);
        lemma_pieces_width_nonneg(b.elements_pieces(prev, selected));
        match elems.last() {
            ElementView::Item { index, abbreviated } => {
                lemma_pieces_width_nonneg(b.label_pieces(index, abbreviated, selected));
            },
            _ => {},
        }
        let n = b.items@.len() as int;
        let rest = b.item_rects_spec(prev, selected, sx, cap, row);
        let all = b.item_rects_spec(elems, selected, sx, cap, row);
        let off = pieces_width(b.elements_pieces(prev, selected));
        match elems.last() {
            ElementView::Item { index, abbreviated } => {
                if off < cap {
                    let len = pieces_width(b.label_pieces(index, abbreviated, selected));
                    let entry = (
                        index as usize,
                        Rect { x: (sx + off) as u16, y: row, width: min_int(len, cap - off) as u16, height: 1 },
                    );
                    assert(all == rest.push(entry));
                    assert(0 <= index < n <= usize::MAX);
                    assert(0 <= min_int(len, cap - off) <= cap - off);
                    lemma_rects_push_within(rest, entry, n, row, lo, sx + cap);
                } else {
                    assert(all == rest);
                }
            },
            _ => {
                assert(all == rest);
            },
        }
        let drest = b.dropdown_rects_spec(prev, selected, sx, cap, row);
        let dall = b.dropdown_rects_spec(elems, selected, sx, cap, row);
        match elems.last() {
            ElementView::Item { index, abbreviated } => {
                let len = pieces_width(b.label_pieces(index, abbreviated, selected));
                let item = b.items@[index];
                if item.has_dropdown && off + len < cap {
                    let d = off + len + 1;
                    let sym_w = display_width(crate::item::dropdown_text(item, b.dropdown_symbol@)) as int;
                    let entry = (
                        index as usize,
                        Rect { x: (sx + d) as u16, y: row, width: min_int(sym_w, cap - d) as u16, height: 1 },
                    );
                    assert(dall == drest.push(entry));
                    assert(0 <= index < n <= usize::MAX);
                    assert(0 <= min_int(sym_w, cap - d) <= cap - d);
                    lemma_rects_push_within(drest, entry, n, row, lo, sx + cap);
                } else {
                    assert(dall == drest);
                }
            },
            _ => {
                assert(dall == drest);
            },
        }
    }
}

/// Every cell of a piece drawn from column `x` lies on row `row` between
/// `x` and the right edge.
proof fn lemma_piece_cells_within(p: Piece, x: int, max_x: int, row: u16, k: int)
    requires
        0 <= x,
        max_x <= u16::MAX,
    ensures
        forall|i: int|
            0 <= i < piece_cells(p, x, max_x, row, k).len() ==> {
                let c = #[trigger] piece_cells(p, x, max_x, row, k)[i];
                c.1 == row && x <= c.0 < max_x
            },
    decreases k,
{
    if k > 0 {
        lemma_piece_cells_within(p, x, max_x, row, k - 1);
        let a = piece_cells(p, x, max_x, row, k - 1);
        let s = piece_cells(p, x, max_x, row, k);
        assert(0 <= char_offset(p, k - 1));
        assert forall|i: int| 0 <= i < s.len() implies {
            let c = #[trigger] s[i];
            c.1 == row && x <= c.0 < max_x
        } by {
            if i < a.len() {
                assert(s[i] == a[i]);
            }
        }
    }
}

/// Every cell of pieces drawn from column `x0` lies on row `row` between
/// `x0` and the right edge.
proof fn lemma_pieces_cells_within(ps: Seq<Piece>, x0: int, max_x: int, row: u16)
    requires
        0 <= x0 <= max_x,
        max_x <= u16::MAX,
    ensures
        forall|i: int|
            0 <= i < pieces_cells(ps, x0, max_x, row).len() ==> {
                let c = #[trigger] pieces_cells(ps, x0, max_x, row)[i];
                c.1 == row && x0 <= c.0 < max_x
            },
    decreases ps.len(),
{
    if ps.len() > 0 {
        let prev = ps.drop_last();
        lemma_pieces_cells_within(prev, x0, max_x, row);
        lemma_cursor_closed(prev, x0, max_x);
        lemma_pieces_width_nonneg(prev);
        let c = cursor(prev, x0, max_x);
        lemma_piece_cells_within(ps.last(), c, max_x, row, ps.last().text.len() as int);
        let a = pieces_cells(prev, x0, max_x, row);
        let b = piece_cells(ps.last(), c, max_x, row, ps.last().text.len() as int);
        let s = pieces_cells(ps, x0, max_x, row);
        assert(s == a + b);
        assert forall|i: int| 0 <= i < s.len() implies {
            let cc = #[trigger] s[i];
            cc.1 == row && x0 <= cc.0 < max_x
        } by {
            if i < a.len() {
                assert(s[i] == a[i]);
            } else {
                assert(s[i] == b[i - a.len()]);
            }
        }
    }
}

/// Everything a render plans lies in the area it was given: its cells, on
/// the area's top row inside the area's columns; the cells recorded for each
/// segment label, dropdown indicator and ellipsis, on that row inside those
/// columns, each attached to one of the trail's segments.
pub proof fn law_plan_within_area(b: Breadcrumb, inner: Rect, selected: Option<usize>, p: RenderPlan)
    requires
        b.is_plan(inner, selected, p),
    ensures
        forall|k: int|
            0 <= k < p.cells@.len() ==> {
                let c = #[trigger] p.cells@[k];
                &&& c.y == inner.y
                &&& inner.x <= c.x < sat_u16(inner.x + inner.width)
            },
        rects_within(p.item_rects@, b.items@.len() as int, inner.y, inner.x as int, sat_u16(inner.x + inner.width)),
        rects_within(p.dropdown_rects@, b.items@.len() as int, inner.y, inner.x as int, sat_u16(inner.x + inner.width)),
        p.ellipsis_rect matches Some(r) ==> rect_within(r, inner.y, inner.x as int, sat_u16(inner.x + inner.width)),
{
    if inner.width != 0 && inner.height != 0 {
        let elems = b.planned_layout(inner);
        let sx = b.start_column(inner, sat(b.elements_width(elems)));
        let max_x = sat_u16(inner.x + inner.width);
        let cap = max_x - sx;
        crate::layout_spec::lemma_layout_indices(
            b.items@,
            b.separator.total_width_spec(),
            inner.width as int,
            b.strategy,
            b.dropdown_symbol@,
        );
        crate::layout_spec::lemma_layout_cost_nonneg(
            b.items@,
            b.separator.total_width_spec(),
            b.dropdown_symbol@,
            elems,
        );
        assert(inner.x <= sx <= max_x);
        lemma_recorded_rects_within(b, elems, selected, sx, cap, inner.y, inner.x as int);
        let ps = b.elements_pieces(elems, selected);
        lemma_pieces_cells_within(ps, sx, max_x, inner.y);
        let pc = pieces_cells(ps, sx, max_x, inner.y);
        assert forall|k: int| 0 <= k < p.cells@.len() implies {
            let c = #[trigger] p.cells@[k];
            &&& c.y == inner.y
            &&& inner.x <= c.x < sat_u16(inner.x + inner.width)
        } by {
            assert(cells_view(p.cells@)[k] == pc[k]);
            assert(cells_view(p.cells@).len() == p.cells@.len());
        }
    }
}

/// The index attached to the first rectangle holding a point is attached to
/// a rectangle holding it.
proof fn lemma_hit_index_found(rects: Seq<(usize, Rect)>, x: u16, y: u16)
    ensures
        hit_index(rects, x, y) matches Some(i) ==> exists|k: int|
            0 <= k < rects.len() && #[trigger] rects[k].0 == i && rect_contains(rects[k].1, x, y),
    decreases rects.len(),
{
    if rects.len() > 0 && !rect_contains(rects[0].1, x, y) {
        lemma_hit_index_found(rects.drop_first(), x, y);
        if let Some(i) = hit_index(rects, x, y) {
            let k = choose|k: int|
                0 <= k < rects.drop_first().len() && #[trigger] rects.drop_first()[k].0 == i && rect_contains(
                    rects.drop_first()[k].1,
                    x,
                    y,
                );
            assert(rects[k + 1] == rects.drop_first()[k]);
        }
    } else if rects.len() > 0 {
        assert(rects[0].0 == rects[0].0);
    }
}

/// Hit-testing the cells a render recorded finds only the trail's own
/// segments, and only at points on the area's top row inside its columns.
pub proof fn law_hits_within_area(b: Breadcrumb, inner: Rect, selected: Option<usize>, p: RenderPlan, x: u16, y: u16)
    requires
        b.is_plan(inner, selected, p),
    ensures
        hit_index(p.item_rects@, x, y) matches Some(i) ==> i < b.items@.len() && y == inner.y && inner.x <= x
            < sat_u16(inner.x + inner.width),
        hit_index(p.dropdown_rects@, x, y) matches Some(i) ==> i < b.items@.len() && y == inner.y && inner.x <= x
            < sat_u16(inner.x + inner.width),
{
    law_plan_within_area(b, inner, selected, p);
    lemma_hit_index_found(p.item_rects@, x, y);
    lemma_hit_index_found(p.dropdown_rects@, x, y);
}

/// The rectangles of `rects` come left to right, each ending before the next
/// begins.
pub open spec fn rects_left_to_right(rects: Seq<(usize, Rect)>) -> bool {
    forall|j: int, k: int|
        0 <= j < k < rects.len() ==> #[trigger] rects[j].1.x + rects[j].1.width <= #[trigger] rects[k].1.x
}

#[verifier::spinoff_prover]
proof fn lemma_recorded_rects_ordered(
    b: Breadcrumb,
    elems: Seq<ElementView>,
    selected: Option<usize>,
    sx: int,
    cap: int,
    row: u16,
)
    requires
        0 <= sx,
        0 <= cap,
        sx + cap <= u16::MAX,
    ensures
        rects_left_to_right(b.item_rects_spec(elems, selected, sx, cap, row)),
        rects_left_to_right(b.dropdown_rects_spec(elems, selected, sx, cap, row)),
        forall|k: int|
            0 <= k < b.item_rects_spec(elems, selected, sx, cap, row).len() ==> {
                let r = #[trigger] b.item_rects_spec(elems, selected, sx, cap, row)[k].1;
                r.x + r.width <= sx + pieces_width(b.elements_pieces(elems, selected))
            },
        forall|k: int|
            0 <= k < b.dropdown_rects_spec(elems, selected, sx, cap, row).len() ==> {
                let r = #[trigger] b.dropdown_rects_spec(elems, selected, sx, cap, row)[k].1;
                r.x + r.width <= sx + pieces_width(b.elements_pieces(elems, selected))
            },
    decreases elems.len(),
{
    if elems.len() > 0 {
        let prev = elems.drop_last();
        lemma_recorded_rects_ordered(b, prev, selected, sx, cap, row);
        let off = pieces_width(b.elements_pieces(prev, selected));
        let total = pieces_width(b.elements_pieces(elems, selected));
        let e = elems.last();
        lemma_pieces_concat(b.elements_pieces(prev, selected), b.element_pieces(e, selected), 0, 0, row);
        assert(elems == prev.push(e));
        assert(total == off + pieces_width(b.element_pieces(e, selected)));
        lemma_pieces_width_nonneg(b.element_pieces(e, selected));
        lemma_pieces_width_nonneg(b.elements_pieces(prev, selected));
        let rest = b.item_rects_spec(prev, selected, sx, cap, row);
        let all = b.item_rects_spec(elems, selected, sx, cap, row);
        let drest = b.dropdown_rects_spec(prev, selected, sx, cap, row);
        let dall = b.dropdown_rects_spec(elems, selected, sx, cap, row);
        match e {
            ElementView::Item { index, abbreviated } => {
                let len = pieces_width(b.label_pieces(index, abbreviated, selected));
                let dlen = pieces_width(b.dropdown_pieces(index));
                lemma_pieces_concat(b.label_pieces(index, abbreviated, selected), b.dropdown_pieces(index), 0, 0, row);
                lemma_pieces_width_nonneg(b.label_pieces(index, abbreviated, selected));
                lemma_pieces_width_nonneg(b.dropdown_pieces(index));
                assert(pieces_width(b.element_pieces(e, selected)) == len + dlen);
                if off < cap {
                    assert(all == rest.push(all[rest.len() as int]));
                    assert(all[rest.len() as int].1.x == sx + off);
                    assert(all[rest.len() as int].1.width == min_int(len, cap - off));
                    assert forall|j: int, k: int| 0 <= j < k < all.len() implies #[trigger] all[j].1.x
                        + all[j].1.width <= #[trigger] all[k].1.x by {
                        if k < rest.len() {
                            assert(all[j] == rest[j] && all[k] == rest[k]);
                        } else {
                            assert(all[j] == rest[j]);
                        }
                    }
                    assert forall|k: int| 0 <= k < all.len() implies {
                        let r = #[trigger] all[k].1;
                        r.x + r.width <= sx + total
                    } by {
                        if k < rest.len() {
                            assert(all[k] == rest[k]);
                        }
                    }
                } else {
                    assert forall|k: int| 0 <= k < all.len() implies {
                        let r = #[trigger] all[k].1;
                        r.x + r.width <= sx + total
                    } by {
                        assert(all[k] == rest[k]);
                    }
                }
                let item = b.items@[index];
                b.lemma_dropdown_width(index);
                if item.has_dropdown && off + len < cap {
                    let d = off + len + 1;
                    let sym_len = display_width(crate::item::dropdown_text(item, b.dropdown_symbol@)) as int;
                    assert(dlen == 1 + sym_len);
                    assert(dall == drest.push(dall[drest.len() as int]));
                    assert(dall[drest.len() as int].1.x == sx + d);
                    assert(dall[drest.len() as int].1.width == min_int(sym_len, cap - d));
                    assert forall|j: int, k: int| 0 <= j < k < dall.len() implies #[trigger] dall[j].1.x
                        + dall[j].1.width <= #[trigger] dall[k].1.x by {
                        if k < drest.len() {
                            assert(dall[j] == drest[j] && dall[k] == drest[k]);
                        } else {
                            assert(dall[j] == drest[j]);
                        }
                    }
                    assert forall|k: int| 0 <= k < dall.len() implies {
                        let r = #[trigger] dall[k].1;
                        r.x + r.width <= sx + total
                    } by {
                        if k < drest.len() {
                            assert(dall[k] == drest[k]);
                        }
                    }
                } else {
                    assert forall|k: int| 0 <= k < dall.len() implies {
                        let r = #[trigger] dall[k].1;
                        r.x + r.width <= sx + total
                    } by {
                        assert(dall[k] == drest[k]);
                    }
                }
            },
            _ => {
                assert forall|k: int| 0 <= k < all.len() implies {
                    let r = #[trigger] all[k].1;
                    r.x + r.width <= sx + total
                } by {
                    assert(all[k] == rest[k]);
                }
                assert forall|k: int| 0 <= k < dall.len() implies {
                    let r = #[trigger] dall[k].1;
                    r.x + r.width <= sx + total
                } by {
                    assert(dall[k] == drest[k]);
                }
            },
        }
    }
}

/// Among rectangles left to right on one row, a point of the `k`-th one hits
/// it first.
proof fn lemma_hit_left_to_right(rects: Seq<(usize, Rect)>, k: int, x: u16, row: u16)
    requires
        rects_left_to_right(rects),
        forall|j: int| 0 <= j < rects.len() ==> #[trigger] rects[j].1.y == row && rects[j].1.height == 1,
        forall|j: int| 0 <= j < rects.len() ==> #[trigger] rects[j].1.x + rects[j].1.width <= u16::MAX,
        row < u16::MAX,
        0 <= k < rects.len(),
        rects[k].1.x <= x < rects[k].1.x + rects[k].1.width,
    ensures
        hit_index(rects, x, row) == Some(rects[k].0),
    decreases k,
{
    if k > 0 {
        let r0 = rects[0].1;
        assert(r0.x + r0.width <= rects[k].1.x);
        assert(!rect_contains(r0, x, row));
        let rest = rects.drop_first();
        assert forall|j: int, i: int| 0 <= j < i < rest.len() implies #[trigger] rest[j].1.x + rest[j].1.width
            <= #[trigger] rest[i].1.x by {
            assert(rest[j] == rects[j + 1] && rest[i] == rects[i + 1]);
        }
        assert forall|j: int| 0 <= j < rest.len() implies #[trigger] rest[j].1.y == row && rest[j].1.height == 1 by {
            assert(rest[j] == rects[j + 1]);
        }
        assert forall|j: int| 0 <= j < rest.len() implies #[trigger] rest[j].1.x + rest[j].1.width <= u16::MAX by {
            assert(rest[j] == rects[j + 1]);
        }
        assert(rest[k - 1] == rects[k]);
        lemma_hit_left_to_right(rest, k - 1, x, row);
    }
}

/// Hit-testing after a render is exact: a point in the cells recorded for a
/// segment's label hits that segment, and a point in the cells recorded for
/// a segment's dropdown indicator hits that indicator, on any row but the
/// terminal's last (whose rectangles hold no point, their bottom edge
/// saturating at `u16::MAX`).
pub proof fn law_hit_finds_drawn_segment(
    b: Breadcrumb,
    inner: Rect,
    selected: Option<usize>,
    p: RenderPlan,
    k: int,
    x: u16,
)
    requires
        b.is_plan(inner, selected, p),
        inner.y < u16::MAX,
    ensures
        0 <= k < p.item_rects@.len() && p.item_rects@[k].1.x <= x < p.item_rects@[k].1.x + p.item_rects@[k].1.width
            ==> hit_index(p.item_rects@, x, inner.y) == Some(p.item_rects@[k].0),
        0 <= k < p.dropdown_rects@.len() && p.dropdown_rects@[k].1.x <= x < p.dropdown_rects@[k].1.x
            + p.dropdown_rects@[k].1.width ==> hit_index(p.dropdown_rects@, x, inner.y) == Some(
            p.dropdown_rects@[k].0,
        ),
{
    law_plan_within_area(b, inner, selected, p);
    if inner.width != 0 && inner.height != 0 {
        let elems = b.planned_layout(inner);
        let sx = b.start_column(inner, sat(b.elements_width(elems)));
        let max_x = sat_u16(inner.x + inner.width);
        let cap = max_x - sx;
        crate::layout_spec::lemma_layout_cost_nonneg(
            b.items@,
            b.separator.total_width_spec(),
            b.dropdown_symbol@,
            elems,
        );
        assert(inner.x <= sx <= max_x);
        lemma_recorded_rects_ordered(b, elems, selected, sx, cap, inner.y);
        let ir = p.item_rects@;
        let dr = p.dropdown_rects@;
        assert forall|j: int| 0 <= j < ir.len() implies #[trigger] ir[j].1.y == inner.y && ir[j].1.height == 1 by {
            assert(ir[j].0 < b.items@.len());
        }
        assert forall|j: int| 0 <= j < ir.len() implies #[trigger] ir[j].1.x + ir[j].1.width <= u16::MAX by {
            assert(ir[j].0 < b.items@.len());
        }
        assert forall|j: int| 0 <= j < dr.len() implies #[trigger] dr[j].1.y == inner.y && dr[j].1.height == 1 by {
            assert(dr[j].0 < b.items@.len());
        }
        assert forall|j: int| 0 <= j < dr.len() implies #[trigger] dr[j].1.x + dr[j].1.width <= u16::MAX by {
            assert(dr[j].0 < b.items@.len());
        }
        if 0 <= k < ir.len() && ir[k].1.x <= x < ir[k].1.x + ir[k].1.width {
            lemma_hit_left_to_right(ir, k, x, inner.y);
        }
        if 0 <= k < dr.len() && dr[k].1.x <= x < dr[k].1.x + dr[k].1.width {
            lemma_hit_left_to_right(dr, k, x, inner.y);
        }
    }
}

/// `Clip` never inserts an ellipsis: its layout is the trail's leading
/// segments, whole, with their separators.
pub proof fn law_clip_keeps_leading_segments(items: Seq<BreadcrumbItem>, sep: usize, avail: usize, sym: Seq<char>)
    ensures
        exists|k: int|
            0 <= k <= items.len() && #[trigger] full_layout(k) == layout(
                items,
                sep as int,
                avail as int,
                TruncateStrategy::Clip,
                sym,
            ),
{
    let n = items.len() as int;
    let w = item_widths(items, sym);
    let v = layout(items, sep as int, avail as int, TruncateStrategy::Clip, sym);
    if n == 0 || avail == 0 {
        assert(full_layout(0) =~= v);
    } else if run_cost(w, sep as int, 0, n) <= avail {
        assert(full_layout(n) == v);
    } else {
        crate::layout_spec::lemma_clip_count_bounds(w, sep as int, avail as int, 0);
        let k = clip_count(w, sep as int, avail as int, 0);
        assert(full_layout(k) == v);
    }
}

/// `ShortenNames` abbreviates before it collapses: when the trail with its
/// leading labels abbreviated fits, every segment is shown, those before the
/// preserved tail under the first `max_abbrev_len` characters of their label.
pub proof fn law_shorten_names_abbreviates_before_collapsing(
    items: Seq<BreadcrumbItem>,
    sep: usize,
    avail: usize,
    max_abbrev_len: usize,
    preserve_tail_items: usize,
    ellipsis: String,
    sym: Seq<char>,
)
    requires
        items.len() > 0,
        avail > 0,
        run_cost(
            shortened_widths(items, max_abbrev_len as int, preserve_tail_items as int, sym),
            sep as int,
            0,
            items.len() as int,
        ) <= avail,
        run_cost(item_widths(items, sym), sep as int, 0, items.len() as int) > avail,
    ensures
        ({
            let v = layout(
                items,
                sep as int,
                avail as int,
                TruncateStrategy::ShortenNames { max_abbrev_len, preserve_tail_items, ellipsis },
                sym,
            );
            &&& v.len() == 2 * items.len() - 1
            &&& forall|k: int|
                0 <= k < v.len() ==> #[trigger] v[k] == if k % 2 == 0 {
                    ElementView::Item {
                        index: k / 2,
                        abbreviated: shortened_label(items, k / 2, max_abbrev_len as int, preserve_tail_items as int),
                    }
                } else {
                    ElementView::Separator
                }
        }),
{
}

} // verus!
