//! Overflow strategies: how a trail that is wider than the available columns
//! is condensed.

use vstd::prelude::*;
use vstd::string::*;

verus! {

/// Strategy deciding how breadcrumb segments collapse when the trail overflows.
#[derive(Debug, Clone, PartialEq, Eq)]
pub enum TruncateStrategy {
    /// Collapses intermediate segments into an ellipsis, keeping the root(s)
    /// and the deepest segment(s): `Home ❯ ... ❯ src ❯ sparkline.rs`.
    Middle {
        /// Minimum number of head segments kept on the left.
        min_head_items: usize,
        /// Minimum number of tail segments kept on the right.
        min_tail_items: usize,
        /// The ellipsis text.
        ellipsis: String,
    },
    /// Collapses the leftmost segments: `... ❯ src ❯ sparkline.rs`.
    Start {
        /// Minimum number of tail segments kept on the right.
        min_tail_items: usize,
        /// The ellipsis text.
        ellipsis: String,
    },
    /// Collapses the deepest segments: `Home ❯ Projects ❯ ...`.
    End {
        /// Minimum number of head segments kept on the left.
        min_head_items: usize,
        /// The ellipsis text.
        ellipsis: String,
    },
    /// Abbreviates ancestor labels before collapsing:
    /// `H ❯ P ❯ ratatui ❯ src ❯ sparkline.rs`.
    ShortenNames {
        /// Number of leading characters kept of an abbreviated label.
        max_abbrev_len: usize,
        /// Number of deepest segments left unabbreviated.
        preserve_tail_items: usize,
        /// Fallback ellipsis text.
        ellipsis: String,
    },
    /// No condensation: segments are clipped at the boundary.
    Clip,
}

/// `s` is the `Middle` strategy with the given head and tail minimums and ellipsis.
pub open spec fn is_middle(s: TruncateStrategy, head: usize, tail: usize, e: Seq<char>) -> bool {
    s matches TruncateStrategy::Middle { min_head_items, min_tail_items, ellipsis }
        && min_head_items == head && min_tail_items == tail && ellipsis@ == e
}

/// `s` is the `Start` strategy with the given tail minimum and ellipsis.
pub open spec fn is_start(s: TruncateStrategy, tail: usize, e: Seq<char>) -> bool {
    s matches TruncateStrategy::Start { min_tail_items, ellipsis } && min_tail_items == tail
        && ellipsis@ == e
}

/// `s` is the `End` strategy with the given head minimum and ellipsis.
pub open spec fn is_end(s: TruncateStrategy, head: usize, e: Seq<char>) -> bool {
    s matches TruncateStrategy::End { min_head_items, ellipsis } && min_head_items == head
        && ellipsis@ == e
}

/// `s` is the `ShortenNames` strategy with the given parameters.
pub open spec fn is_shorten_names(s: TruncateStrategy, len: usize, tail: usize, e: Seq<char>) -> bool {
    s matches TruncateStrategy::ShortenNames { max_abbrev_len, preserve_tail_items, ellipsis }
        && max_abbrev_len == len && preserve_tail_items == tail && ellipsis@ == e
}

/// The default ellipsis text, `"..."`.
pub open spec fn default_ellipsis() -> Seq<char> {
    seq!['.', '.', '.']
}

fn three_dots() -> (s: String)
    ensures
        s@ == default_ellipsis(),
{
    let s = String::from_str("...");
    proof {
        reveal_strlit("...");
    }
    s
}

impl TruncateStrategy {
    /// `Middle` keeping 1 head item and 2 tail items, with `"..."`.
    pub fn middle() -> (s: Self)
        ensures
            is_middle(s, 1, 2, default_ellipsis()),
    {
        TruncateStrategy::Middle { min_head_items: 1, min_tail_items: 2, ellipsis: three_dots() }
    }

    /// A customised `Middle` strategy.
    pub fn middle_with(min_head_items: usize, min_tail_items: usize, ellipsis: &str) -> (s: Self)
        ensures
            is_middle(s, min_head_items, min_tail_items, ellipsis@),
    {
        TruncateStrategy::Middle { min_head_items, min_tail_items, ellipsis: String::from_str(ellipsis) }
    }

    /// `Start` keeping 2 tail items, with `"..."`.
    pub fn start() -> (s: Self)
        ensures
            is_start(s, 2, default_ellipsis()),
    {
        TruncateStrategy::Start { min_tail_items: 2, ellipsis: three_dots() }
    }

    /// A customised `Start` strategy.
    pub fn start_with(min_tail_items: usize, ellipsis: &str) -> (s: Self)
        ensures
            is_start(s, min_tail_items, ellipsis@),
    {
        TruncateStrategy::Start { min_tail_items, ellipsis: String::from_str(ellipsis) }
    }

    /// `End` keeping 1 head item, with `"..."`.
    pub fn end() -> (s: Self)
        ensures
            is_end(s, 1, default_ellipsis()),
    {
        TruncateStrategy::End { min_head_items: 1, ellipsis: three_dots() }
    }

    /// A customised `End` strategy.
    pub fn end_with(min_head_items: usize, ellipsis: &str) -> (s: Self)
        ensures
            is_end(s, min_head_items, ellipsis@),
    {
        TruncateStrategy::End { min_head_items, ellipsis: String::from_str(ellipsis) }
    }

    /// `ShortenNames` abbreviating to 1 character and keeping 2 tail items, with `"..."`.
    pub fn shorten_names() -> (s: Self)
        ensures
            is_shorten_names(s, 1, 2, default_ellipsis()),
    {
        TruncateStrategy::ShortenNames {
            max_abbrev_len: 1,
            preserve_tail_items: 2,
            ellipsis: three_dots(),
        }
    }

    /// A customised `ShortenNames` strategy.
    pub fn shorten_names_with(max_abbrev_len: usize, preserve_tail_items: usize, ellipsis: &str) -> (s: Self)
        ensures
            is_shorten_names(s, max_abbrev_len, preserve_tail_items, ellipsis@),
    {
        TruncateStrategy::ShortenNames {
            max_abbrev_len,
            preserve_tail_items,
            ellipsis: String::from_str(ellipsis),
        }
    }

    /// The strategy that performs no truncation.
    pub fn none() -> (s: Self)
        ensures
            s is Clip,
    {
        TruncateStrategy::Clip
    }
}

impl Default for TruncateStrategy {
    /// The default is `Middle` with 1 head item, 2 tail items and `"..."`.
    fn default() -> (s: Self)
        ensures
            is_middle(s, 1, 2, default_ellipsis()),
    {
        Self::middle()
    }
}

} // verus!
