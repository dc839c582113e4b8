//! The layout engine: fits a trail of segments into a number of terminal
//! columns under a truncation strategy, producing the sequence of elements
//! (segments, separators, ellipsis) to draw.

use vstd::prelude::*;
use vstd::string::*;
use crate::item::{BreadcrumbItem, item_width_with};
use crate::layout_spec::{
    ElementView, clip_count, clipped_layout, ellipsis_el, end_count, end_layout, full_layout, item_el,
    items_run, lemma_run_cost_left, lemma_run_cost_mono, middle_cost, middle_grow_phase,
    middle_head_phase, middle_layout, middle_tail_phase, run_cost, shorten_text, start_layout,
    start_tail, shorten_boundary, abbreviate_layout, shortened_widths, shortened_full_layout, shorten_layout, item_widths,
    layout,
};
use crate::strategy::TruncateStrategy;
use crate::text::{display_width, str_width};

verus! {

/// An individual visual token of a resolved layout.
#[derive(Debug, Clone, PartialEq, Eq)]
pub enum RenderElement {
    /// A segment, by its index in the trail, with an abbreviated label if any.
    Item {
        /// Index of the segment in the trail.
        index: usize,
        /// Abbreviated label shown instead of the full one.
        abbreviated_label: Option<String>,
    },
    /// A separator between neighbouring tokens.
    Separator,
    /// An ellipsis standing for collapsed segments.
    Ellipsis {
        /// The ellipsis text.
        text: String,
    },
}

impl View for RenderElement {
    type V = ElementView;

    open spec fn view(&self) -> ElementView {
        match self {
            RenderElement::Item { index, abbreviated_label } => ElementView::Item {
                index: *index as int,
                abbreviated: match abbreviated_label {
                    Some(s) => Some(s@),
                    None => None,
                },
            },
            RenderElement::Separator => ElementView::Separator,
            RenderElement::Ellipsis { text } => ElementView::Ellipsis { text: text@ },
        }
    }
}

/// The models of a sequence of elements.
pub open spec fn elems_view(v: Seq<RenderElement>) -> Seq<ElementView> {
    v.map_values(|e: RenderElement| e@)
}

proof fn lemma_elems_push(v: Seq<RenderElement>, e: RenderElement)
    ensures
        elems_view(v.push(e)) == elems_view(v).push(e@),
{
    assert(elems_view(v.push(e)) =~= elems_view(v).push(e@));
}

pub(crate) proof fn lemma_items_run_step(lo: int, hi: int)
    requires
        lo <= hi,
    ensures
        hi == lo ==> items_run(lo, hi + 1) == seq![item_el(lo)],
        hi > lo ==> items_run(lo, hi + 1) == items_run(lo, hi) + seq![ElementView::Separator, item_el(hi)],
{
    if hi == lo {
        assert(items_run(lo, hi + 1) =~= seq![item_el(lo)]);
    } else {
        let a = items_run(lo, hi + 1);
        let b = items_run(lo, hi) + seq![ElementView::Separator, item_el(hi)];
        assert(a.len() == b.len());
        assert forall|k: int| 0 <= k < a.len() implies a[k] == b[k] by {
            if k < 2 * (hi - lo) - 1 {
            } else if k == 2 * (hi - lo) - 1 {
            } else {
                assert(k == 2 * (hi - lo));
                assert(k / 2 == hi - lo);
            }
        }
        assert(a =~= b);
    }
}

/// Appends the segments `lo..hi`, separated, to `v`.
fn push_run(v: &mut Vec<RenderElement>, lo: usize, hi: usize)
    requires
        lo <= hi,
    ensures
        elems_view(final(v)@) == elems_view(old(v)@) + items_run(lo as int, hi as int),
{
    let ghost start = elems_view(v@);
    let mut i = lo;
    assert(items_run(lo as int, lo as int) =~= Seq::<ElementView>::empty());
    assert(start + items_run(lo as int, lo as int) =~= start);
    while i < hi
        invariant
            lo <= i <= hi,
            elems_view(v@) == start + items_run(lo as int, i as int),
        decreases hi - i,
    {
        proof {
            lemma_items_run_step(lo as int, i as int);
        }
        if i > lo {
            proof {
                lemma_elems_push(v@, RenderElement::Separator);
            }
            v.push(RenderElement::Separator);
        }
        proof {
            lemma_elems_push(v@, RenderElement::Item { index: i, abbreviated_label: None });
        }
        v.push(RenderElement::Item { index: i, abbreviated_label: None });
        assert(elems_view(v@) =~= start + items_run(lo as int, i + 1));
        i = i + 1;
    }
}

/// The untruncated layout of `n` segments: every segment, separated.
pub fn build_full_layout(n: usize) -> (v: Vec<RenderElement>)
    ensures
        elems_view(v@) == full_layout(n as int),
{
    let mut v: Vec<RenderElement> = Vec::new();
    assert(elems_view(v@) =~= Seq::<ElementView>::empty());
    push_run(&mut v, 0, n);
    assert(elems_view(v@) =~= full_layout(n as int));
    v
}

/// An ellipsis element showing `text`.
fn ellipsis_element(text: &str) -> (e: RenderElement)
    ensures
        e@ == ellipsis_el(text@),
{
    RenderElement::Ellipsis { text: String::from_str(text) }
}

/// A layout holding just one element.
fn single(e: RenderElement) -> (v: Vec<RenderElement>)
    ensures
        elems_view(v@) == seq![e@],
{
    let mut v: Vec<RenderElement> = Vec::new();
    v.push(e);
    assert(elems_view(v@) =~= seq![e@]);
    v
}

/// Whether all segments fit: their widths plus a separator between each
/// neighbouring pair take at most `available_width` columns.
fn total_fits(widths: &[usize], sep_width: usize, available_width: usize) -> (b: bool)
    ensures
        b == (run_cost(widths@, sep_width as int, 0, widths@.len() as int) <= available_width),
{
    let n = widths.len();
    let ghost w = widths@;
    let ghost sep = sep_width as int;
    let mut cur: usize = 0;
    for i in 0..n
        invariant
            n == w.len(),
            w == widths@,
            sep == sep_width,
            cur == run_cost(w, sep, 0, i as int),
            cur <= available_width,
    {
        let add: u128 = if i > 0 {
            sep_width as u128 + widths[i] as u128
        } else {
            widths[i] as u128
        };
        assert(run_cost(w, sep, 0, i + 1) == cur + add);
        if cur as u128 + add > available_width as u128 {
            proof {
                lemma_run_cost_mono(w, sep, 0, i + 1, n as int);
            }
            return false;
        }
        cur = (cur as u128 + add) as usize;
    }
    true
}

/// Clips the trail left to right at the first segment that no longer fits,
/// without an ellipsis.
pub fn build_clipped_layout(widths: &[usize], sep_width: usize, available_width: usize) -> (v: Vec<RenderElement>)
    ensures
        elems_view(v@) == clipped_layout(widths@, sep_width as int, available_width as int),
{
    let n = widths.len();
    let ghost w = widths@;
    let ghost sep = sep_width as int;
    let ghost avail = available_width as int;
    let mut v: Vec<RenderElement> = Vec::new();
    let mut cur: usize = 0;
    let mut i: usize = 0;
    assert(elems_view(v@) =~= items_run(0, 0));
    while i < n
        invariant
            n == w.len(),
            w == widths@,
            sep == sep_width,
            avail == available_width,
            i <= n,
            cur == run_cost(w, sep, 0, i as int),
            cur <= available_width,
            elems_view(v@) == items_run(0, i as int),
            clip_count(w, sep, avail, i as int) == clip_count(w, sep, avail, 0),
        ensures
            clip_count(w, sep, avail, i as int) == i,
        decreases n - i,
    {
        let needed: u128 = if i > 0 {
            sep_width as u128 + widths[i] as u128
        } else {
            widths[i] as u128
        };
        assert(run_cost(w, sep, 0, i + 1) == cur + needed);
        if cur as u128 + needed > available_width as u128 {
            break;
        }
        proof {
            lemma_items_run_step(0, i as int);
        }
        if i > 0 {
            proof {
                lemma_elems_push(v@, RenderElement::Separator);
            }
            v.push(RenderElement::Separator);
        }
        proof {
            lemma_elems_push(v@, RenderElement::Item { index: i, abbreviated_label: None });
        }
        v.push(RenderElement::Item { index: i, abbreviated_label: None });
        assert(elems_view(v@) =~= items_run(0, i + 1));
        cur = (cur as u128 + needed) as usize;
        i = i + 1;
    }
    v
}

/// `Start`: an ellipsis, then as many trailing segments as fit (at least the
/// last one when it fits at all); nothing when not even the ellipsis fits.
fn resolve_start_layout(widths: &[usize], sep_width: usize, available_width: usize, ellipsis: &str) -> (v: Vec<RenderElement>)
    requires
        widths@.len() >= 1,
    ensures
        elems_view(v@) == start_layout(widths@, sep_width as int, available_width as int, ellipsis@),
{
    let n = widths.len();
    let ghost w = widths@;
    let ghost sep = sep_width as int;
    let ghost avail = available_width as int;
    let ellipsis_w = str_width(ellipsis);
    let ghost ew = ellipsis_w as int;
    if available_width < ellipsis_w {
        let v: Vec<RenderElement> = Vec::new();
        assert(elems_view(v@) =~= Seq::<ElementView>::empty());
        return v;
    }
    let last_idx = n - 1;
    let last_w = widths[last_idx];
    if ellipsis_w as u128 + sep_width as u128 + last_w as u128 > available_width as u128 {
        if last_w <= available_width {
            return single(RenderElement::Item { index: last_idx, abbreviated_label: None });
        }
        return single(ellipsis_element(ellipsis));
    }
    let mut tail_start: usize = last_idx;
    let mut cur: usize = (ellipsis_w as u128 + sep_width as u128 + last_w as u128) as usize;
    assert(run_cost(w, sep, last_idx as int, n as int) == last_w);
    while tail_start > 0
        invariant
            n == w.len(),
            w == widths@,
            sep == sep_width,
            avail == available_width,
            ew == ellipsis_w,
            tail_start <= last_idx,
            last_idx == n - 1,
            cur == ew + sep + run_cost(w, sep, tail_start as int, n as int),
            cur <= available_width,
            start_tail(w, sep, avail, ew, tail_start as int) == start_tail(w, sep, avail, ew, last_idx as int),
        ensures
            start_tail(w, sep, avail, ew, tail_start as int) == tail_start,
        decreases tail_start,
    {
        let add: u128 = sep_width as u128 + widths[tail_start - 1] as u128;
        proof {
            lemma_run_cost_left(w, sep, tail_start - 1, n as int);
        }
        if cur as u128 + add > available_width as u128 {
            break;
        }
        cur = (cur as u128 + add) as usize;
        tail_start = tail_start - 1;
    }
    if tail_start == 0 {
        return build_full_layout(n);
    }
    let mut v: Vec<RenderElement> = Vec::new();
    v.push(ellipsis_element(ellipsis));
    v.push(RenderElement::Separator);
    assert(elems_view(v@) =~= seq![ellipsis_el(ellipsis@), ElementView::Separator]);
    push_run(&mut v, tail_start, n);
    v
}

/// `End`: as many leading segments as fit before an ellipsis; the first
/// segment is kept whenever it fits alone and a head segment is required,
/// alone when the ellipsis then no longer fits; nothing when not even the
/// ellipsis fits.
fn resolve_end_layout(
    widths: &[usize],
    sep_width: usize,
    available_width: usize,
    min_head_items: usize,
    ellipsis: &str,
) -> (v: Vec<RenderElement>)
    requires
        widths@.len() >= 1,
    ensures
        elems_view(v@) == end_layout(widths@, sep_width as int, available_width as int, min_head_items as int, ellipsis@),
{
    let n = widths.len();
    let ghost w = widths@;
    let ghost sep = sep_width as int;
    let ghost avail = available_width as int;
    let ellipsis_w = str_width(ellipsis);
    let ghost ew = ellipsis_w as int;
    if available_width < ellipsis_w {
        let v: Vec<RenderElement> = Vec::new();
        assert(elems_view(v@) =~= Seq::<ElementView>::empty());
        return v;
    }
    let mut v: Vec<RenderElement> = Vec::new();
    let mut cur: usize = 0;
    let mut i: usize = 0;
    assert(elems_view(v@) =~= items_run(0, 0));
    while i < n
        invariant
            n == w.len(),
            w == widths@,
            sep == sep_width,
            avail == available_width,
            ew == ellipsis_w,
            i <= n,
            cur == run_cost(w, sep, 0, i as int),
            cur <= available_width,
            elems_view(v@) == items_run(0, i as int),
            end_count(w, sep, avail, min_head_items as int, ew, i as int) == end_count(w, sep, avail, min_head_items as int, ew, 0),
        ensures
            end_count(w, sep, avail, min_head_items as int, ew, i as int) == i,
        decreases n - i,
    {
        let is_first = i == 0;
        let item_cost: u128 = if is_first {
            widths[i] as u128
        } else {
            sep_width as u128 + widths[i] as u128
        };
        assert(run_cost(w, sep, 0, i + 1) == cur + item_cost);
        let with_ellipsis: u128 = cur as u128 + item_cost + sep_width as u128 + ellipsis_w as u128;
        if with_ellipsis <= available_width as u128 || (is_first && item_cost <= available_width as u128
            && min_head_items >= 1) {
            proof {
                lemma_items_run_step(0, i as int);
            }
            if !is_first {
                proof {
                    lemma_elems_push(v@, RenderElement::Separator);
                }
                v.push(RenderElement::Separator);
            }
            proof {
                lemma_elems_push(v@, RenderElement::Item { index: i, abbreviated_label: None });
            }
            v.push(RenderElement::Item { index: i, abbreviated_label: None });
            assert(elems_view(v@) =~= items_run(0, i + 1));
            cur = (cur as u128 + item_cost) as usize;
            i = i + 1;
        } else {
            break;
        }
    }
    if i == n {
        return build_full_layout(n);
    }
    if i > 0 && cur as u128 + sep_width as u128 + ellipsis_w as u128 > available_width as u128 {
        return v;
    }
    if i > 0 {
        proof {
            lemma_elems_push(v@, RenderElement::Separator);
        }
        v.push(RenderElement::Separator);
    }
    let el = ellipsis_element(ellipsis);
    proof {
        lemma_elems_push(v@, el);
    }
    v.push(el);
    proof {
        if i > 0 {
            assert(elems_view(v@) =~= items_run(0, i as int) + seq![ElementView::Separator, ellipsis_el(ellipsis@)]);
        } else {
            assert(elems_view(v@) =~= seq![ellipsis_el(ellipsis@)]);
        }
    }
    v
}

/// `Middle`: the first segment, an ellipsis and the last segment, then more
/// head and tail segments while they fit (first up to the required counts,
/// then alternately, tail first); falls back to `Start` for fewer than three
/// segments or when the minimal middle layout does not fit.
fn resolve_middle_layout(
    widths: &[usize],
    sep_width: usize,
    available_width: usize,
    min_head_items: usize,
    min_tail_items: usize,
    ellipsis: &str,
) -> (v: Vec<RenderElement>)
    requires
        widths@.len() >= 1,
    ensures
        elems_view(v@) == middle_layout(
            widths@,
            sep_width as int,
            available_width as int,
            min_head_items as int,
            min_tail_items as int,
            ellipsis@,
        ),
{
    let n = widths.len();
    let ghost w = widths@;
    let ghost sep = sep_width as int;
    let ghost avail = available_width as int;
    if n <= 2 {
        return resolve_start_layout(widths, sep_width, available_width, ellipsis);
    }
    let ellipsis_w = str_width(ellipsis);
    let ghost ew = ellipsis_w as int;
    let head_req: usize = if min_head_items > 1 {
        min_head_items
    } else {
        1
    };
    let tail_req: usize = if min_tail_items > 1 {
        min_tail_items
    } else {
        1
    };
    let minimal: u128 = widths[0] as u128 + sep_width as u128 + ellipsis_w as u128 + sep_width as u128
        + widths[n - 1] as u128;
    proof {
        assert(run_cost(w, sep, 0, 1) == w[0]);
        assert(run_cost(w, sep, n - 1, n as int) == w[n - 1]);
    }
    if minimal > available_width as u128 {
        return resolve_start_layout(widths, sep_width, available_width, ellipsis);
    }
    let mut head_end: usize = 1;
    let mut tail_start: usize = n - 1;
    let mut cur: usize = minimal as usize;
    // Fill up to the required number of head segments.
    while head_end < head_req && head_end < tail_start
        invariant
            n == w.len(),
            w == widths@,
            sep == sep_width,
            avail == available_width,
            ew == ellipsis_w,
            tail_start == n - 1,
            1 <= head_end <= tail_start,
            cur == middle_cost(w, sep, ew, head_end as int, tail_start as int),
            cur <= available_width,
            middle_head_phase(w, sep, avail, ew, head_req as int, head_end as int, tail_start as int)
                == middle_head_phase(w, sep, avail, ew, head_req as int, 1, n - 1),
        ensures
            middle_head_phase(w, sep, avail, ew, head_req as int, head_end as int, tail_start as int)
                == head_end,
        decreases tail_start - head_end,
    {
        let add: u128 = sep_width as u128 + widths[head_end] as u128;
        assert(run_cost(w, sep, 0, head_end + 1) == run_cost(w, sep, 0, head_end as int) + sep + w[head_end as int]);
        if cur as u128 + add <= available_width as u128 {
            cur = (cur as u128 + add) as usize;
            head_end = head_end + 1;
        } else {
            break;
        }
    }
    let ghost h1 = head_end as int;
    // Fill up to the required number of tail segments.
    while n - tail_start < tail_req && tail_start > head_end
        invariant
            n == w.len(),
            w == widths@,
            sep == sep_width,
            avail == available_width,
            ew == ellipsis_w,
            head_end == h1,
            1 <= head_end <= tail_start <= n - 1,
            cur == middle_cost(w, sep, ew, head_end as int, tail_start as int),
            cur <= available_width,
            middle_tail_phase(w, sep, avail, ew, tail_req as int, head_end as int, tail_start as int)
                == middle_tail_phase(w, sep, avail, ew, tail_req as int, h1, n - 1),
        ensures
            middle_tail_phase(w, sep, avail, ew, tail_req as int, head_end as int, tail_start as int)
                == tail_start,
        decreases tail_start - head_end,
    {
        let add: u128 = sep_width as u128 + widths[tail_start - 1] as u128;
        proof {
            lemma_run_cost_left(w, sep, tail_start - 1, n as int);
        }
        if cur as u128 + add <= available_width as u128 {
            cur = (cur as u128 + add) as usize;
            tail_start = tail_start - 1;
        } else {
            break;
        }
    }
    let ghost t2 = tail_start as int;
    // Grow the tail, then the head, in rounds, until neither fits.
    loop
        invariant
            n == w.len(),
            w == widths@,
            sep == sep_width,
            avail == available_width,
            ew == ellipsis_w,
            1 <= head_end <= tail_start <= n - 1,
            cur == middle_cost(w, sep, ew, head_end as int, tail_start as int),
            cur <= available_width,
            middle_grow_phase(w, sep, avail, ew, head_end as int, tail_start as int)
                == middle_grow_phase(w, sep, avail, ew, h1, t2),
        ensures
            middle_grow_phase(w, sep, avail, ew, head_end as int, tail_start as int)
                == (head_end as int, tail_start as int),
        decreases tail_start - head_end,
    {
        let ghost h0 = head_end as int;
        let ghost t0 = tail_start as int;
        let mut expanded = false;
        if tail_start > head_end {
            let add: u128 = sep_width as u128 + widths[tail_start - 1] as u128;
            proof {
                lemma_run_cost_left(w, sep, tail_start - 1, n as int);
            }
            if cur as u128 + add <= available_width as u128 {
                cur = (cur as u128 + add) as usize;
                tail_start = tail_start - 1;
                expanded = true;
            }
        }
        if head_end < tail_start {
            let add: u128 = sep_width as u128 + widths[head_end] as u128;
            assert(run_cost(w, sep, 0, head_end + 1) == run_cost(w, sep, 0, head_end as int) + sep + w[head_end as int]);
            if cur as u128 + add <= available_width as u128 {
                cur = (cur as u128 + add) as usize;
                head_end = head_end + 1;
                expanded = true;
            }
        }
        assert(middle_grow_phase(w, sep, avail, ew, h0, t0) == if expanded {
            middle_grow_phase(w, sep, avail, ew, head_end as int, tail_start as int)
        } else {
            (h0, t0)
        });
        if !expanded {
            break;
        }
    }
    if head_end >= tail_start {
        return build_full_layout(n);
    }
    let mut v: Vec<RenderElement> = Vec::new();
    assert(elems_view(v@) =~= Seq::<ElementView>::empty());
    push_run(&mut v, 0, head_end);
    proof {
        lemma_elems_push(v@, RenderElement::Separator);
    }
    v.push(RenderElement::Separator);
    let el = ellipsis_element(ellipsis);
    proof {
        lemma_elems_push(v@, el);
    }
    v.push(el);
    proof {
        lemma_elems_push(v@, RenderElement::Separator);
    }
    v.push(RenderElement::Separator);
    assert(elems_view(v@) =~= items_run(0, head_end as int) + seq![
        ElementView::Separator,
        ellipsis_el(ellipsis@),
        ElementView::Separator,
    ]);
    push_run(&mut v, tail_start, n);
    v
}

/// The first `max_chars` characters of `s` (all of `s` when it is shorter).
pub fn shorten_str(s: &str, max_chars: usize) -> (r: String)
    ensures
        r@ == shorten_text(s@, max_chars as int),
{
    if s.is_empty() || max_chars == 0 {
        let r = String::new();
        assert(r@ =~= shorten_text(s@, max_chars as int));
        return r;
    }
    let len = s.unicode_len();
    let k = if max_chars < len {
        max_chars
    } else {
        len
    };
    let prefix = s.substring_char(0, k);
    let r = String::from_str(prefix);
    assert(r@ =~= shorten_text(s@, max_chars as int));
    r
}

/// The columns an item occupies, with `abbrev_label` in place of its label
/// when given.
fn compute_item_width(item: &BreadcrumbItem, abbrev_label: Option<&str>, default_dropdown_sym: &str) -> (w: usize)
    ensures
        w == match abbrev_label {
            Some(a) => item_width_with(*item, display_width(a@) as int, default_dropdown_sym@),
            None => item.total_width_spec(default_dropdown_sym@),
        },
{
    let label_w = match abbrev_label {
        Some(abbrev) => str_width(abbrev),
        None => item.label_width(),
    };
    item.width_with_label(label_w, default_dropdown_sym)
}

/// `ShortenNames`: abbreviates all but the last `preserve_tail_items` labels
/// (at least one is kept whole); when the abbreviated trail still overflows,
/// applies `Middle` over the abbreviated widths, the segments it keeps shown
/// under their abbreviations.
fn resolve_shorten_names_layout(
    items: &[BreadcrumbItem],
    sep_width: usize,
    available_width: usize,
    max_abbrev_len: usize,
    preserve_tail_items: usize,
    ellipsis: &str,
    default_dropdown_sym: &str,
) -> (v: Vec<RenderElement>)
    requires
        items@.len() >= 1,
    ensures
        elems_view(v@) == shorten_layout(
            items@,
            sep_width as int,
            available_width as int,
            max_abbrev_len as int,
            preserve_tail_items as int,
            ellipsis@,
            default_dropdown_sym@,
        ),
{
    let n = items.len();
    let ghost its = items@;
    let ghost maxl = max_abbrev_len as int;
    let ghost pres = preserve_tail_items as int;
    let ghost sym = default_dropdown_sym@;
    let keep: usize = if preserve_tail_items > 1 {
        preserve_tail_items
    } else {
        1
    };
    let tail_preserve_start = n.saturating_sub(keep);
    assert(tail_preserve_start == shorten_boundary(n as int, pres));
    let mut shortened: Vec<RenderElement> = Vec::new();
    let mut new_widths: Vec<usize> = Vec::new();
    let mut abbrevs: Vec<String> = Vec::new();
    let ghost target_w = shortened_widths(its, maxl, pres, sym);
    let ghost target_l = shortened_full_layout(its, maxl, pres);
    for i in 0..n
        invariant
            n == its.len(),
            its == items@,
            maxl == max_abbrev_len,
            pres == preserve_tail_items,
            sym == default_dropdown_sym@,
            tail_preserve_start == shorten_boundary(n as int, pres),
            target_w == shortened_widths(its, maxl, pres, sym),
            target_l == shortened_full_layout(its, maxl, pres),
            new_widths@ == target_w.take(i as int),
            i == 0 ==> shortened@.len() == 0,
            i > 0 ==> elems_view(shortened@) == target_l.take(2 * i - 1),
            abbrevs@.len() == if i < tail_preserve_start { i as int } else { tail_preserve_start as int },
            forall|j: int| 0 <= j < abbrevs@.len() ==> #[trigger] abbrevs@[j]@ == shorten_text(its[j].label.text(), maxl),
    {
        let el = if i < tail_preserve_start {
            let raw_text = items[i].label.text_string();
            let abbrev = shorten_str(raw_text.as_str(), max_abbrev_len);
            let w = compute_item_width(&items[i], Some(abbrev.as_str()), default_dropdown_sym);
            new_widths.push(w);
            abbrevs.push(abbrev.clone());
            RenderElement::Item { index: i, abbreviated_label: Some(abbrev) }
        } else {
            let w = compute_item_width(&items[i], None, default_dropdown_sym);
            new_widths.push(w);
            RenderElement::Item { index: i, abbreviated_label: None }
        };
        assert(new_widths@ =~= target_w.take(i + 1));
        assert(el@ == target_l[2 * i]);
        if i > 0 {
            proof {
                lemma_elems_push(shortened@, RenderElement::Separator);
            }
            shortened.push(RenderElement::Separator);
            assert(target_l[2 * i - 1] == ElementView::Separator);
        }
        proof {
            lemma_elems_push(shortened@, el);
        }
        shortened.push(el);
        assert(elems_view(shortened@) =~= target_l.take(2 * i + 1));
    }
    assert(new_widths@ =~= target_w);
    assert(elems_view(shortened@) =~= target_l);
    if total_fits(new_widths.as_slice(), sep_width, available_width) {
        return shortened;
    }
    let mid = resolve_middle_layout(new_widths.as_slice(), sep_width, available_width, 1, preserve_tail_items, ellipsis);
    let ghost mv = elems_view(mid@);
    proof {
        crate::layout_spec::lemma_middle_layout_indices(new_widths@, sep_width as int, available_width as int, 1, pres, ellipsis@);
    }
    let ghost target = abbreviate_layout(mv, its, maxl, pres);
    let m = mid.len();
    let mut out: Vec<RenderElement> = Vec::new();
    for j in 0..m
        invariant
            m == mv.len(),
            mv == elems_view(mid@),
            n == its.len(),
            its == items@,
            tail_preserve_start == shorten_boundary(n as int, pres),
            crate::layout_spec::indices_below(mv, n as int),
            target == abbreviate_layout(mv, its, maxl, pres),
            abbrevs@.len() == tail_preserve_start,
            forall|q: int| 0 <= q < abbrevs@.len() ==> #[trigger] abbrevs@[q]@ == shorten_text(its[q].label.text(), maxl),
            elems_view(out@) == target.take(j as int),
    {
        assert(mv[j as int] == mid@[j as int]@);
        assert(crate::layout_spec::item_index_ok(mv[j as int], n as int));
        let el = match &mid[j] {
            RenderElement::Item { index, .. } => {
                let idx = *index;
                if idx < tail_preserve_start {
                    RenderElement::Item { index: idx, abbreviated_label: Some(abbrevs[idx].clone()) }
                } else {
                    RenderElement::Item { index: idx, abbreviated_label: None }
                }
            },
            RenderElement::Separator => RenderElement::Separator,
            RenderElement::Ellipsis { text } => RenderElement::Ellipsis { text: text.clone() },
        };
        assert(el@ == target[j as int]);
        proof {
            lemma_elems_push(out@, el);
        }
        out.push(el);
        assert(elems_view(out@) =~= target.take(j + 1));
    }
    assert(target.take(m as int) =~= target);
    out
}

/// Resolves the elements of the trail `items` in `available_width` columns,
/// with separators `sep_width` columns wide and `default_dropdown_sym` as the
/// dropdown symbol of items without their own: every item when they all fit,
/// else the layout that `strategy` makes; nothing when there are no items or
/// no columns.
pub fn resolve_layout(
    items: &[BreadcrumbItem],
    sep_width: usize,
    available_width: usize,
    strategy: &TruncateStrategy,
    default_dropdown_sym: &str,
) -> (v: Vec<RenderElement>)
    ensures
        elems_view(v@) == layout(
            items@,
            sep_width as int,
            available_width as int,
            *strategy,
            default_dropdown_sym@,
        ),
{
    let n = items.len();
    if n == 0 || available_width == 0 {
        let v: Vec<RenderElement> = Vec::new();
        assert(elems_view(v@) =~= Seq::<ElementView>::empty());
        return v;
    }
    let ghost target_w = item_widths(items@, default_dropdown_sym@);
    let mut full_widths: Vec<usize> = Vec::new();
    for i in 0..n
        invariant
            n == items@.len(),
            target_w == item_widths(items@, default_dropdown_sym@),
            full_widths@ == target_w.take(i as int),
    {
        let w = compute_item_width(&items[i], None, default_dropdown_sym);
        full_widths.push(w);
        assert(full_widths@ =~= target_w.take(i + 1));
    }
    assert(full_widths@ =~= target_w);
    let widths = full_widths.as_slice();
    if total_fits(widths, sep_width, available_width) {
        return build_full_layout(n);
    }
    match strategy {
        TruncateStrategy::Clip => build_clipped_layout(widths, sep_width, available_width),
        TruncateStrategy::Start { min_tail_items: _, ellipsis } => resolve_start_layout(
            widths,
            sep_width,
            available_width,
            ellipsis.as_str(),
        ),
        TruncateStrategy::Middle { min_head_items, min_tail_items, ellipsis } => resolve_middle_layout(
            widths,
            sep_width,
            available_width,
            *min_head_items,
            *min_tail_items,
            ellipsis.as_str(),
        ),
        TruncateStrategy::End { min_head_items, ellipsis } => resolve_end_layout(
            widths,
            sep_width,
            available_width,
            *min_head_items,
            ellipsis.as_str(),
        ),
        TruncateStrategy::ShortenNames { max_abbrev_len, preserve_tail_items, ellipsis } =>
            resolve_shorten_names_layout(
            items,
            sep_width,
            available_width,
            *max_abbrev_len,
            *preserve_tail_items,
            ellipsis.as_str(),
            default_dropdown_sym,
        ),
    }
}

} // verus!
