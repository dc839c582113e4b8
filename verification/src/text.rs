//! Text measurement: terminal column widths of strings (through `unicode-width`),
//! the splitting of raw text into label spans (through `ratatui`), and the
//! saturating column arithmetic that the rest of the library builds on.

use vstd::prelude::*;

verus! {

/// The terminal column width that `unicode-width` assigns to a string.
pub uninterp spec fn display_width(s: Seq<char>) -> usize;

/// The index of the first line feed in `s` at or after `i`, or `s.len()`
/// when there is none.
pub open spec fn line_end(s: Seq<char>, i: int) -> int
    decreases s.len() - i,
{
    if i >= s.len() || s[i] == '\n' {
        i
    } else {
        line_end(s, i + 1)
    }
}

/// A line found before a line feed, without the carriage return that ends
/// it, if one does.
pub open spec fn strip_cr(l: Seq<char>) -> Seq<char> {
    if l.len() > 0 && l.last() == '\r' {
        l.drop_last()
    } else {
        l
    }
}

/// The first line feed at or after `i` is no earlier than `i` and no later
/// than the end.
pub proof fn lemma_line_end_bounds(s: Seq<char>, i: int)
    requires
        0 <= i,
    ensures
        i <= line_end(s, i),
        i <= s.len() ==> line_end(s, i) <= s.len(),
    decreases s.len() - i,
{
    if i < s.len() && s[i] != '\n' {
        lemma_line_end_bounds(s, i + 1);
    }
}

/// The lines of `text` as `str::lines` splits it, which `ratatui`'s
/// `Line::raw` makes one span each: split at each line feed, with a carriage
/// return right before it dropped; a final line feed starts no further line.
pub open spec fn line_spans(text: Seq<char>) -> Seq<Seq<char>>
    decreases text.len(),
{
    if text.len() == 0 {
        Seq::empty()
    } else {
        let e = line_end(text, 0);
        proof {
            lemma_line_end_bounds(text, 0);
        }
        if e >= text.len() {
            seq![text]
        } else {
            seq![strip_cr(text.take(e))] + line_spans(text.skip(e + 1))
        }
    }
}

/// Every character is printable ASCII (`' '` to `'~'`).
pub open spec fn is_printable_ascii(s: Seq<char>) -> bool {
    forall|i: int| 0 <= i < s.len() ==> ' ' <= #[trigger] s[i] && s[i] <= '~'
}

/// `x` capped at `usize::MAX`.
pub open spec fn sat(x: int) -> int {
    if x > usize::MAX {
        usize::MAX as int
    } else {
        x
    }
}

/// Calls `unicode_width::UnicodeWidthStr::width`. The width is a function of
/// the text alone, named `display_width`. The crate's documentation gives every
/// printable ASCII character width 1 and applies none of its multi-character
/// rules to them, so such a string is as wide as it is long; nothing more is
/// stated of the width.
#[verifier::external_body]
pub(crate) fn str_width(s: &str) -> (w: usize)
    ensures
        w == display_width(s@),
        is_printable_ascii(s@) ==> w == s@.len(),
{
    unicode_width::UnicodeWidthStr::width(s)
}

/// Calls `ratatui::text::Line::raw` and hands back the texts of the spans it
/// builds: `Line::raw` splits the text with `str::lines` and makes one span
/// of each line, so the texts are `line_spans` of the text.
#[verifier::external_body]
pub(crate) fn raw_line_spans(text: &str) -> (r: Vec<String>)
    ensures
        r@.map_values(|s: String| s@) == line_spans(text@),
{
    ratatui::text::Line::raw(text).spans.into_iter().map(|s| s.content.into_owned()).collect()
}

/// Saturating addition of column counts.
pub fn add_cols(a: usize, b: usize) -> (r: usize)
    ensures
        r == sat(a + b),
{
    a.saturating_add(b)
}

/// Saturating addition is associative on non-negative column counts.
pub proof fn lemma_sat_assoc(a: int, b: int)
    requires
        0 <= a,
        0 <= b,
    ensures
        sat(sat(a) + b) == sat(a + b),
{
}

/// The characters of `s`, in order.
pub fn chars_of(s: &str) -> (v: Vec<char>)
    ensures
        v@ == s@,
{
    broadcast use vstd::string::group_string_axioms;
    let mut v: Vec<char> = Vec::new();
    for c in it: s.chars()
        invariant
            v@ == it.seq().take(it.index() as int),
            it.seq() == s@,
    {
        v.push(c);
    }
    v
}

} // verus!
