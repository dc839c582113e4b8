//! The mathematical model of trail layouts: the element sequences a layout is
//! made of, the column costs of runs of segments, and, for each truncation
//! strategy, the greedy process that decides which segments are kept.

use vstd::prelude::*;
use crate::item::{BreadcrumbItem, item_width_with};
use crate::strategy::TruncateStrategy;
use crate::text::display_width;

verus! {

/// The model of one layout element.
pub enum ElementView {
    /// The segment at `index`, with an abbreviated label if any.
    Item { index: int, abbreviated: Option<Seq<char>> },
    /// A separator.
    Separator,
    /// An ellipsis showing `text`.
    Ellipsis { text: Seq<char> },
}

/// The segment at `i`, shown with its full label.
pub open spec fn item_el(i: int) -> ElementView {
    ElementView::Item { index: i, abbreviated: None }
}

/// An ellipsis showing `e`.
pub open spec fn ellipsis_el(e: Seq<char>) -> ElementView {
    ElementView::Ellipsis { text: e }
}

/// The segments `lo..hi`, in order, with a separator between neighbours.
pub open spec fn items_run(lo: int, hi: int) -> Seq<ElementView> {
    if hi <= lo {
        Seq::empty()
    } else {
        Seq::new(
            (2 * (hi - lo) - 1) as nat,
            |k: int|
                if k % 2 == 0 {
                    item_el(lo + k / 2)
                } else {
                    ElementView::Separator
                },
        )
    }
}

/// The untruncated layout of `n` segments.
pub open spec fn full_layout(n: int) -> Seq<ElementView> {
    items_run(0, n)
}

/// Columns taken by the segments `lo..hi` with a separator of `sep` columns
/// between neighbours.
pub open spec fn run_cost(w: Seq<usize>, sep: int, lo: int, hi: int) -> int
    decreases hi - lo,
{
    if hi <= lo {
        0
    } else if hi == lo + 1 {
        w[lo] as int
    } else {
        run_cost(w, sep, lo, hi - 1) + sep + w[hi - 1]
    }
}

/// Clipping: the number of leading segments that fit, counting from `i`.
pub open spec fn clip_count(w: Seq<usize>, sep: int, avail: int, i: int) -> int
    decreases w.len() - i,
{
    if i >= w.len() || run_cost(w, sep, 0, i + 1) > avail {
        i
    } else {
        clip_count(w, sep, avail, i + 1)
    }
}

/// The clipped layout: the leading segments that fit, with no ellipsis.
pub open spec fn clipped_layout(w: Seq<usize>, sep: int, avail: int) -> Seq<ElementView> {
    items_run(0, clip_count(w, sep, avail, 0))
}

/// `Start`: the first index of the kept tail, when the segments from `s` on
/// are kept after the ellipsis and one more is tried on the left.
pub open spec fn start_tail(w: Seq<usize>, sep: int, avail: int, ew: int, s: int) -> int
    decreases s,
{
    if s <= 0 {
        0
    } else if ew + sep + run_cost(w, sep, s - 1, w.len() as int) > avail {
        s
    } else {
        start_tail(w, sep, avail, ew, s - 1)
    }
}

/// The `Start` layout: an ellipsis, then as many trailing segments as fit;
/// nothing when not even the ellipsis fits.
pub open spec fn start_layout(w: Seq<usize>, sep: int, avail: int, e: Seq<char>) -> Seq<ElementView> {
    let n = w.len() as int;
    let ew = display_width(e) as int;
    if avail < ew {
        Seq::empty()
    } else if ew + sep + w[n - 1] > avail {
        if w[n - 1] <= avail {
            seq![item_el(n - 1)]
        } else {
            seq![ellipsis_el(e)]
        }
    } else {
        let t = start_tail(w, sep, avail, ew, n - 1);
        if t == 0 {
            full_layout(n)
        } else {
            seq![ellipsis_el(e), ElementView::Separator] + items_run(t, n)
        }
    }
}

/// `End`: whether segment `i` is kept, given that all before it are.
pub open spec fn end_include(w: Seq<usize>, sep: int, avail: int, min_head: int, ew: int, i: int) -> bool {
    ||| run_cost(w, sep, 0, i + 1) + sep + ew <= avail
    ||| (i == 0 && w[0] <= avail && min_head >= 1)
}

/// `End`: the number of leading segments kept, counting from `i`.
pub open spec fn end_count(w: Seq<usize>, sep: int, avail: int, min_head: int, ew: int, i: int) -> int
    decreases w.len() - i,
{
    if i >= w.len() || !end_include(w, sep, avail, min_head, ew, i) {
        i
    } else {
        end_count(w, sep, avail, min_head, ew, i + 1)
    }
}

/// The `End` layout: as many leading segments as fit before an ellipsis; a
/// required first segment that leaves no room for the ellipsis is shown
/// alone; nothing when not even the ellipsis fits.
pub open spec fn end_layout(w: Seq<usize>, sep: int, avail: int, min_head: int, e: Seq<char>) -> Seq<ElementView> {
    let n = w.len() as int;
    let ew = display_width(e) as int;
    if avail < ew {
        Seq::empty()
    } else {
        let k = end_count(w, sep, avail, min_head, ew, 0);
        if k == n {
            full_layout(n)
        } else if k > 0 && run_cost(w, sep, 0, k) + sep + ew > avail {
            items_run(0, k)
        } else if k > 0 {
            items_run(0, k) + seq![ElementView::Separator, ellipsis_el(e)]
        } else {
            seq![ellipsis_el(e)]
        }
    }
}

/// `Middle`: the columns taken by the head `0..h`, the ellipsis with a
/// separator on each side, and the tail `t..n`.
pub open spec fn middle_cost(w: Seq<usize>, sep: int, ew: int, h: int, t: int) -> int {
    run_cost(w, sep, 0, h) + sep + ew + sep + run_cost(w, sep, t, w.len() as int)
}

/// `Middle`, first phase: grow the head up to the required count while it fits.
pub open spec fn middle_head_phase(w: Seq<usize>, sep: int, avail: int, ew: int, req: int, h: int, t: int) -> int
    decreases t - h,
{
    if h < req && h < t && middle_cost(w, sep, ew, h + 1, t) <= avail {
        middle_head_phase(w, sep, avail, ew, req, h + 1, t)
    } else {
        h
    }
}

/// `Middle`, second phase: grow the tail up to the required count while it fits.
pub open spec fn middle_tail_phase(w: Seq<usize>, sep: int, avail: int, ew: int, req: int, h: int, t: int) -> int
    decreases t - h,
{
    if w.len() - t < req && t > h && middle_cost(w, sep, ew, h, t - 1) <= avail {
        middle_tail_phase(w, sep, avail, ew, req, h, t - 1)
    } else {
        t
    }
}

/// `Middle`, third phase: in rounds, try one more tail segment, then one more
/// head segment, until a round adds neither.
pub open spec fn middle_grow_phase(w: Seq<usize>, sep: int, avail: int, ew: int, h: int, t: int) -> (int, int)
    decreases t - h,
{
    let grow_tail = t > h && middle_cost(w, sep, ew, h, t - 1) <= avail;
    let t2 = if grow_tail {
        t - 1
    } else {
        t
    };
    let grow_head = h < t2 && middle_cost(w, sep, ew, h + 1, t2) <= avail;
    let h2 = if grow_head {
        h + 1
    } else {
        h
    };
    if (grow_tail || grow_head) && t - h > 0 {
        middle_grow_phase(w, sep, avail, ew, h2, t2)
    } else {
        (h, t)
    }
}

/// `Middle`: the head end and tail start that the three phases reach.
pub open spec fn middle_bounds(w: Seq<usize>, sep: int, avail: int, min_head: int, min_tail: int, ew: int) -> (int, int) {
    let n = w.len() as int;
    let head_req = if min_head > 1 {
        min_head
    } else {
        1
    };
    let tail_req = if min_tail > 1 {
        min_tail
    } else {
        1
    };
    let h1 = middle_head_phase(w, sep, avail, ew, head_req, 1, n - 1);
    let t2 = middle_tail_phase(w, sep, avail, ew, tail_req, h1, n - 1);
    middle_grow_phase(w, sep, avail, ew, h1, t2)
}

/// The `Middle` layout: a head, an ellipsis and a tail; `Start` when fewer
/// than three segments or when the first and last segments do not both fit
/// around the ellipsis.
pub open spec fn middle_layout(w: Seq<usize>, sep: int, avail: int, min_head: int, min_tail: int, e: Seq<char>) -> Seq<ElementView> {
    let n = w.len() as int;
    let ew = display_width(e) as int;
    if n <= 2 || middle_cost(w, sep, ew, 1, n - 1) > avail {
        start_layout(w, sep, avail, e)
    } else {
        let (h, t) = middle_bounds(w, sep, avail, min_head, min_tail, ew);
        if h >= t {
            full_layout(n)
        } else {
            items_run(0, h) + seq![ElementView::Separator, ellipsis_el(e), ElementView::Separator]
                + items_run(t, n)
        }
    }
}

/// The first `n` characters of `s` (all of it when shorter).
pub open spec fn shorten_text(s: Seq<char>, n: int) -> Seq<char> {
    if n < s.len() {
        s.take(n)
    } else {
        s
    }
}

/// `ShortenNames`: the index of the first segment left unabbreviated.
pub open spec fn shorten_boundary(n: int, preserve: int) -> int {
    let keep = if preserve > 1 {
        preserve
    } else {
        1
    };
    if n - keep > 0 {
        n - keep
    } else {
        0
    }
}

/// `ShortenNames`: the abbreviated label of segment `i`, if it is abbreviated.
pub open spec fn shortened_label(items: Seq<BreadcrumbItem>, i: int, max_len: int, preserve: int) -> Option<Seq<char>> {
    if i < shorten_boundary(items.len() as int, preserve) {
        Some(shorten_text(items[i].label.text(), max_len))
    } else {
        None
    }
}

/// The columns each segment occupies with its full label.
pub open spec fn item_widths(items: Seq<BreadcrumbItem>, sym: Seq<char>) -> Seq<usize> {
    Seq::new(items.len(), |i: int| items[i].total_width_spec(sym) as usize)
}

/// The columns each segment occupies under `ShortenNames`.
pub open spec fn shortened_widths(items: Seq<BreadcrumbItem>, max_len: int, preserve: int, sym: Seq<char>) -> Seq<usize> {
    Seq::new(
        items.len(),
        |i: int|
            match shortened_label(items, i, max_len, preserve) {
                Some(a) => item_width_with(items[i], display_width(a) as int, sym) as usize,
                None => items[i].total_width_spec(sym) as usize,
            },
    )
}

/// All segments, the leading ones abbreviated.
pub open spec fn shortened_full_layout(items: Seq<BreadcrumbItem>, max_len: int, preserve: int) -> Seq<ElementView> {
    let n = items.len() as int;
    if n == 0 {
        Seq::empty()
    } else {
        Seq::new(
            (2 * n - 1) as nat,
            |k: int|
                if k % 2 == 0 {
                    ElementView::Item { index: k / 2, abbreviated: shortened_label(items, k / 2, max_len, preserve) }
                } else {
                    ElementView::Separator
                },
        )
    }
}

/// The layout `v` with every segment before the preserved tail shown under
/// its abbreviated label.
pub open spec fn abbreviate_layout(v: Seq<ElementView>, items: Seq<BreadcrumbItem>, max_len: int, preserve: int) -> Seq<
    ElementView,
> {
    Seq::new(
        v.len(),
        |k: int|
            match v[k] {
                ElementView::Item { index, .. } => ElementView::Item {
                    index,
                    abbreviated: shortened_label(items, index, max_len, preserve),
                },
                other => other,
            },
    )
}

/// The `ShortenNames` layout: all segments with the leading ones abbreviated
/// when that fits, else the `Middle` layout over the abbreviated widths, its
/// segments keeping their abbreviations.
pub open spec fn shorten_layout(
    items: Seq<BreadcrumbItem>,
    sep: int,
    avail: int,
    max_len: int,
    preserve: int,
    e: Seq<char>,
    sym: Seq<char>,
) -> Seq<ElementView> {
    let w = shortened_widths(items, max_len, preserve, sym);
    if run_cost(w, sep, 0, items.len() as int) <= avail {
        shortened_full_layout(items, max_len, preserve)
    } else {
        abbreviate_layout(middle_layout(w, sep, avail, 1, preserve, e), items, max_len, preserve)
    }
}

/// The layout of a trail of `items` in `avail` columns, with separators of
/// `sep` columns, under `strategy`, with `sym` as the default dropdown symbol.
pub open spec fn layout(
    items: Seq<BreadcrumbItem>,
    sep: int,
    avail: int,
    strategy: TruncateStrategy,
    sym: Seq<char>,
) -> Seq<ElementView> {
    let n = items.len() as int;
    let w = item_widths(items, sym);
    if n == 0 || avail == 0 {
        Seq::empty()
    } else if run_cost(w, sep, 0, n) <= avail {
        full_layout(n)
    } else {
        match strategy {
            TruncateStrategy::Clip => clipped_layout(w, sep, avail),
            TruncateStrategy::Start { ellipsis, .. } => start_layout(w, sep, avail, ellipsis@),
            TruncateStrategy::Middle { min_head_items, min_tail_items, ellipsis } => middle_layout(
                w,
                sep,
                avail,
                min_head_items as int,
                min_tail_items as int,
                ellipsis@,
            ),
            TruncateStrategy::End { min_head_items, ellipsis } => end_layout(
                w,
                sep,
                avail,
                min_head_items as int,
                ellipsis@,
            ),
            TruncateStrategy::ShortenNames { max_abbrev_len, preserve_tail_items, ellipsis } => shorten_layout(
                items,
                sep,
                avail,
                max_abbrev_len as int,
                preserve_tail_items as int,
                ellipsis@,
                sym,
            ),
        }
    }
}

/// Extending a run by one segment on the left.
pub proof fn lemma_run_cost_left(w: Seq<usize>, sep: int, lo: int, hi: int)
    requires
        0 <= lo < hi <= w.len(),
    ensures
        hi == lo + 1 ==> run_cost(w, sep, lo, hi) == w[lo] as int,
        hi > lo + 1 ==> run_cost(w, sep, lo, hi) == w[lo] + sep + run_cost(w, sep, lo + 1, hi),
    decreases hi - lo,
{
    if hi == lo + 2 {
        assert(run_cost(w, sep, lo, lo + 1) == w[lo] as int);
        assert(run_cost(w, sep, lo + 1, hi) == w[lo + 1] as int);
    } else if hi > lo + 2 {
        lemma_run_cost_left(w, sep, lo, hi - 1);
        assert(run_cost(w, sep, lo + 1, hi) == run_cost(w, sep, lo + 1, hi - 1) + sep + w[hi - 1]);
    }
}

/// Runs cost no less than nothing.
pub proof fn lemma_run_cost_nonneg(w: Seq<usize>, sep: int, lo: int, hi: int)
    requires
        0 <= sep,
        0 <= lo,
        hi <= w.len(),
    ensures
        0 <= run_cost(w, sep, lo, hi),
    decreases hi - lo,
{
    if hi > lo + 1 {
        lemma_run_cost_nonneg(w, sep, lo, hi - 1);
    }
}

/// Longer runs cost more.
pub proof fn lemma_run_cost_mono(w: Seq<usize>, sep: int, lo: int, i: int, j: int)
    requires
        0 <= sep,
        0 <= lo <= i <= j <= w.len(),
    ensures
        0 <= run_cost(w, sep, lo, i) <= run_cost(w, sep, lo, j),
    decreases j - i,
{
    lemma_run_cost_nonneg(w, sep, lo, i);
    if i < j {
        lemma_run_cost_mono(w, sep, lo, i, j - 1);
        if j - 1 > lo {
            assert(run_cost(w, sep, lo, j) == run_cost(w, sep, lo, j - 1) + sep + w[j - 1]);
        }
    }
}

/// Shortening a run on the left makes it no costlier.
pub proof fn lemma_run_cost_mono_left(w: Seq<usize>, sep: int, i: int, j: int, hi: int)
    requires
        0 <= sep,
        0 <= i <= j <= hi <= w.len(),
    ensures
        0 <= run_cost(w, sep, j, hi) <= run_cost(w, sep, i, hi),
    decreases j - i,
{
    lemma_run_cost_mono(w, sep, j, j, hi);
    if i < j {
        lemma_run_cost_mono_left(w, sep, i + 1, j, hi);
        if i + 1 < hi {
            lemma_run_cost_left(w, sep, i, hi);
        }
    }
}

/// The columns one layout element takes: a segment with its label
/// (abbreviated or full) and dropdown indicator, a separator of `sep`
/// columns, or an ellipsis.
pub open spec fn element_cost(items: Seq<BreadcrumbItem>, sep: int, sym: Seq<char>, e: ElementView) -> int {
    match e {
        ElementView::Separator => sep,
        ElementView::Ellipsis { text } => display_width(text) as int,
        ElementView::Item { index, abbreviated } => match abbreviated {
            Some(a) => item_width_with(items[index], display_width(a) as int, sym),
            None => items[index].total_width_spec(sym),
        },
    }
}

/// The columns a sequence of layout elements takes.
pub open spec fn layout_cost(items: Seq<BreadcrumbItem>, sep: int, sym: Seq<char>, elems: Seq<ElementView>) -> int
    decreases elems.len(),
{
    if elems.len() == 0 {
        0
    } else {
        layout_cost(items, sep, sym, elems.drop_last()) + element_cost(items, sep, sym, elems.last())
    }
}

/// No layout element takes fewer than zero columns.
pub proof fn lemma_element_cost_nonneg(items: Seq<BreadcrumbItem>, sep: int, sym: Seq<char>, e: ElementView)
    requires
        0 <= sep,
    ensures
        0 <= element_cost(items, sep, sym, e),
{
    match e {
        ElementView::Item { index, .. } => {
            crate::item::lemma_label_width_nonneg(items[index].label);
        },
        _ => {},
    }
}

/// No sequence of layout elements takes fewer than zero columns.
pub proof fn lemma_layout_cost_nonneg(items: Seq<BreadcrumbItem>, sep: int, sym: Seq<char>, elems: Seq<ElementView>)
    requires
        0 <= sep,
    ensures
        0 <= layout_cost(items, sep, sym, elems),
    decreases elems.len(),
{
    if elems.len() > 0 {
        lemma_layout_cost_nonneg(items, sep, sym, elems.drop_last());
        lemma_element_cost_nonneg(items, sep, sym, elems.last());
    }
}

/// The element names a segment index within `0..n`, if it names one.
pub open spec fn item_index_ok(e: ElementView, n: int) -> bool {
    match e {
        ElementView::Item { index, .. } => 0 <= index < n,
        _ => true,
    }
}

/// Every segment named in `v` is one of `0..n`.
pub open spec fn indices_below(v: Seq<ElementView>, n: int) -> bool {
    forall|k: int| 0 <= k < v.len() ==> #[trigger] item_index_ok(v[k], n)
}

proof fn lemma_items_run_indices(lo: int, hi: int, n: int)
    requires
        0 <= lo,
        hi <= n,
    ensures
        indices_below(items_run(lo, hi), n),
{
    assert forall|k: int| 0 <= k < items_run(lo, hi).len() implies #[trigger] item_index_ok(items_run(lo, hi)[k], n) by {
        if k % 2 == 0 {
            assert(k / 2 < hi - lo);
        }
    }
}

proof fn lemma_indices_concat(a: Seq<ElementView>, b: Seq<ElementView>, n: int)
    requires
        indices_below(a, n),
        indices_below(b, n),
    ensures
        indices_below(a + b, n),
{
    assert forall|k: int| 0 <= k < (a + b).len() implies #[trigger] item_index_ok((a + b)[k], n) by {
        if k < a.len() {
            assert((a + b)[k] == a[k]);
        } else {
            assert((a + b)[k] == b[k - a.len()]);
        }
    }
}

pub proof fn lemma_clip_count_bounds(w: Seq<usize>, sep: int, avail: int, i: int)
    requires
        0 <= i <= w.len(),
    ensures
        i <= clip_count(w, sep, avail, i) <= w.len(),
    decreases w.len() - i,
{
    if i < w.len() && run_cost(w, sep, 0, i + 1) <= avail {
        lemma_clip_count_bounds(w, sep, avail, i + 1);
    }
}

pub proof fn lemma_start_tail_bounds(w: Seq<usize>, sep: int, avail: int, ew: int, s: int)
    requires
        0 <= s,
    ensures
        0 <= start_tail(w, sep, avail, ew, s) <= s,
    decreases s,
{
    if s > 0 && ew + sep + run_cost(w, sep, s - 1, w.len() as int) <= avail {
        lemma_start_tail_bounds(w, sep, avail, ew, s - 1);
    }
}

pub proof fn lemma_end_count_bounds(w: Seq<usize>, sep: int, avail: int, min_head: int, ew: int, i: int)
    requires
        0 <= i <= w.len(),
    ensures
        i <= end_count(w, sep, avail, min_head, ew, i) <= w.len(),
    decreases w.len() - i,
{
    if i < w.len() && end_include(w, sep, avail, min_head, ew, i) {
        lemma_end_count_bounds(w, sep, avail, min_head, ew, i + 1);
    }
}

pub proof fn lemma_head_phase_bounds(w: Seq<usize>, sep: int, avail: int, ew: int, req: int, h: int, t: int)
    requires
        h <= t,
    ensures
        h <= middle_head_phase(w, sep, avail, ew, req, h, t) <= t,
    decreases t - h,
{
    if h < req && h < t && middle_cost(w, sep, ew, h + 1, t) <= avail {
        lemma_head_phase_bounds(w, sep, avail, ew, req, h + 1, t);
    }
}

pub proof fn lemma_tail_phase_bounds(w: Seq<usize>, sep: int, avail: int, ew: int, req: int, h: int, t: int)
    requires
        h <= t,
    ensures
        h <= middle_tail_phase(w, sep, avail, ew, req, h, t) <= t,
    decreases t - h,
{
    if w.len() - t < req && t > h && middle_cost(w, sep, ew, h, t - 1) <= avail {
        lemma_tail_phase_bounds(w, sep, avail, ew, req, h, t - 1);
    }
}

pub proof fn lemma_grow_phase_bounds(w: Seq<usize>, sep: int, avail: int, ew: int, h: int, t: int)
    requires
        h <= t,
    ensures
        h <= middle_grow_phase(w, sep, avail, ew, h, t).0 <= middle_grow_phase(w, sep, avail, ew, h, t).1 <= t,
    decreases t - h,
{
    let grow_tail = t > h && middle_cost(w, sep, ew, h, t - 1) <= avail;
    let t2 = if grow_tail {
        t - 1
    } else {
        t
    };
    let grow_head = h < t2 && middle_cost(w, sep, ew, h + 1, t2) <= avail;
    let h2 = if grow_head {
        h + 1
    } else {
        h
    };
    if (grow_tail || grow_head) && t - h > 0 {
        lemma_grow_phase_bounds(w, sep, avail, ew, h2, t2);
    }
}

/// The bounds that the three `Middle` phases reach keep the first segment in
/// the head, the last in the tail, and the head before the tail.
pub proof fn lemma_middle_bounds(w: Seq<usize>, sep: int, avail: int, min_head: int, min_tail: int, ew: int)
    requires
        w.len() >= 3,
    ensures
        1 <= middle_bounds(w, sep, avail, min_head, min_tail, ew).0,
        middle_bounds(w, sep, avail, min_head, min_tail, ew).0 <= middle_bounds(w, sep, avail, min_head, min_tail, ew).1,
        middle_bounds(w, sep, avail, min_head, min_tail, ew).1 <= w.len() - 1,
{
    let n = w.len() as int;
    let head_req = if min_head > 1 {
        min_head
    } else {
        1
    };
    let tail_req = if min_tail > 1 {
        min_tail
    } else {
        1
    };
    lemma_head_phase_bounds(w, sep, avail, ew, head_req, 1, n - 1);
    let h1 = middle_head_phase(w, sep, avail, ew, head_req, 1, n - 1);
    lemma_tail_phase_bounds(w, sep, avail, ew, tail_req, h1, n - 1);
    let t2 = middle_tail_phase(w, sep, avail, ew, tail_req, h1, n - 1);
    lemma_grow_phase_bounds(w, sep, avail, ew, h1, t2);
}

proof fn lemma_start_layout_indices(w: Seq<usize>, sep: int, avail: int, e: Seq<char>)
    requires
        w.len() >= 1,
    ensures
        indices_below(start_layout(w, sep, avail, e), w.len() as int),
{
    let n = w.len() as int;
    let ew = display_width(e) as int;
    lemma_start_tail_bounds(w, sep, avail, ew, n - 1);
    let t = start_tail(w, sep, avail, ew, n - 1);
    lemma_items_run_indices(0, n, n);
    lemma_items_run_indices(t, n, n);
    let head = seq![ellipsis_el(e), ElementView::Separator];
    assert(indices_below(head, n)) by {
        assert forall|k: int| 0 <= k < head.len() implies #[trigger] item_index_ok(head[k], n) by {
        }
    }
    lemma_indices_concat(head, items_run(t, n), n);
    assert(indices_below(seq![item_el(n - 1)], n)) by {
        assert forall|k: int| 0 <= k < 1 implies #[trigger] item_index_ok(seq![item_el(n - 1)][k], n) by {
        }
    }
    assert(indices_below(seq![ellipsis_el(e)], n)) by {
        assert forall|k: int| 0 <= k < 1 implies #[trigger] item_index_ok(seq![ellipsis_el(e)][k], n) by {
        }
    }
}

pub proof fn lemma_middle_layout_indices(w: Seq<usize>, sep: int, avail: int, min_head: int, min_tail: int, e: Seq<char>)
    requires
        w.len() >= 1,
    ensures
        indices_below(middle_layout(w, sep, avail, min_head, min_tail, e), w.len() as int),
{
    let n = w.len() as int;
    let ew = display_width(e) as int;
    lemma_start_layout_indices(w, sep, avail, e);
    if n >= 3 {
        lemma_middle_bounds(w, sep, avail, min_head, min_tail, ew);
        let (h, t) = middle_bounds(w, sep, avail, min_head, min_tail, ew);
        lemma_items_run_indices(0, n, n);
        lemma_items_run_indices(0, h, n);
        lemma_items_run_indices(t, n, n);
        let mid = seq![ElementView::Separator, ellipsis_el(e), ElementView::Separator];
        assert(indices_below(mid, n)) by {
            assert forall|k: int| 0 <= k < mid.len() implies #[trigger] item_index_ok(mid[k], n) by {
            }
        }
        lemma_indices_concat(items_run(0, h), mid, n);
        lemma_indices_concat(items_run(0, h) + mid, items_run(t, n), n);
    }
}

proof fn lemma_end_layout_indices(w: Seq<usize>, sep: int, avail: int, min_head: int, e: Seq<char>)
    requires
        w.len() >= 1,
    ensures
        indices_below(end_layout(w, sep, avail, min_head, e), w.len() as int),
{
    let n = w.len() as int;
    let ew = display_width(e) as int;
    lemma_end_count_bounds(w, sep, avail, min_head, ew, 0);
    let k = end_count(w, sep, avail, min_head, ew, 0);
    lemma_items_run_indices(0, n, n);
    lemma_items_run_indices(0, k, n);
    let tail = seq![ElementView::Separator, ellipsis_el(e)];
    assert(indices_below(tail, n)) by {
        assert forall|j: int| 0 <= j < tail.len() implies #[trigger] item_index_ok(tail[j], n) by {
        }
    }
    lemma_indices_concat(items_run(0, k), tail, n);
    assert(indices_below(seq![ellipsis_el(e)], n)) by {
        assert forall|j: int| 0 <= j < 1 implies #[trigger] item_index_ok(seq![ellipsis_el(e)][j], n) by {
        }
    }
}

/// Every segment that a layout names is one of the trail's segments.
pub proof fn lemma_layout_indices(
    items: Seq<BreadcrumbItem>,
    sep: int,
    avail: int,
    strategy: TruncateStrategy,
    sym: Seq<char>,
)
    ensures
        indices_below(layout(items, sep, avail, strategy, sym), items.len() as int),
{
    let n = items.len() as int;
    let w = item_widths(items, sym);
    if n == 0 || avail == 0 {
        assert(layout(items, sep, avail, strategy, sym) =~= Seq::<ElementView>::empty());
    } else {
        lemma_items_run_indices(0, n, n);
        match strategy {
            TruncateStrategy::Clip => {
                lemma_clip_count_bounds(w, sep, avail, 0);
                lemma_items_run_indices(0, clip_count(w, sep, avail, 0), n);
            },
            TruncateStrategy::Start { ellipsis, .. } => {
                lemma_start_layout_indices(w, sep, avail, ellipsis@);
            },
            TruncateStrategy::Middle { min_head_items, min_tail_items, ellipsis } => {
                lemma_middle_layout_indices(w, sep, avail, min_head_items as int, min_tail_items as int, ellipsis@);
            },
            TruncateStrategy::End { min_head_items, ellipsis } => {
                lemma_end_layout_indices(w, sep, avail, min_head_items as int, ellipsis@);
            },
            TruncateStrategy::ShortenNames { max_abbrev_len, preserve_tail_items, ellipsis } => {
                let sw = shortened_widths(items, max_abbrev_len as int, preserve_tail_items as int, sym);
                lemma_middle_layout_indices(sw, sep, avail, 1, preserve_tail_items as int, ellipsis@);
                let mv = middle_layout(sw, sep, avail, 1, preserve_tail_items as int, ellipsis@);
                let av = abbreviate_layout(mv, items, max_abbrev_len as int, preserve_tail_items as int);
                assert forall|k: int| 0 <= k < av.len() implies #[trigger] item_index_ok(av[k], n) by {
                    assert(item_index_ok(mv[k], n));
                }
                let full = shortened_full_layout(items, max_abbrev_len as int, preserve_tail_items as int);
                assert forall|k: int| 0 <= k < full.len() implies #[trigger] item_index_ok(full[k], n) by {
                    if k % 2 == 0 {
                        assert(k / 2 < n);
                    }
                }
            },
        }
    }
}

} // verus!
