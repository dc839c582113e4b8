//! Separators drawn between adjacent breadcrumb segments, with the built-in
//! glyph presets.

use vstd::prelude::*;
use vstd::string::*;
use ratatui::style::Style;
use crate::geometry::{modifier_style, style_with_modifiers};
use crate::text::{add_cols, display_width, sat, str_width};

verus! {

/// A separator rendered between breadcrumb items: a symbol with `spacing`
/// blank columns on each side.
#[derive(Debug, PartialEq, Eq)]
pub struct BreadcrumbSeparator {
    /// The separator symbol.
    pub symbol: String,
    /// Style of the symbol and of the padding spaces.
    pub style: Style,
    /// Number of blank columns on each side of the symbol.
    pub spacing: u16,
}

impl BreadcrumbSeparator {
    /// The separator holds `symbol` in the default style with one column of
    /// padding on each side.
    pub open spec fn is_preset(self, symbol: Seq<char>) -> bool {
        &&& self.symbol@ == symbol
        &&& self.style == modifier_style(0)
        &&& self.spacing == 1
    }

    /// The columns the separator occupies: the symbol's width plus twice the
    /// spacing (capped at `usize::MAX`).
    pub open spec fn total_width_spec(self) -> int {
        sat(display_width(self.symbol@) + 2 * self.spacing)
    }

    /// A separator with the given symbol, the default style and one column of
    /// padding on each side.
    pub fn custom(symbol: &str) -> (s: Self)
        ensures
            s.is_preset(symbol@),
    {
        BreadcrumbSeparator { symbol: String::from_str(symbol), style: style_with_modifiers(0), spacing: 1 }
    }

    /// Preset `❯`.
    pub fn chevron() -> (s: Self)
        ensures
            s.is_preset(seq!['❯']),
    {
        let t = "❯";
        proof {
            reveal_strlit("❯");
            assert(t@ =~= seq!['❯']);
        }
        Self::custom(t)
    }

    /// Preset `/`.
    pub fn slash() -> (s: Self)
        ensures
            s.is_preset(seq!['/']),
    {
        let t = "/";
        proof {
            reveal_strlit("/");
            assert(t@ =~= seq!['/']);
        }
        Self::custom(t)
    }

    /// Preset `›`.
    pub fn angle() -> (s: Self)
        ensures
            s.is_preset(seq!['›']),
    {
        let t = "›";
        proof {
            reveal_strlit("›");
            assert(t@ =~= seq!['›']);
        }
        Self::custom(t)
    }

    /// Preset `→`.
    pub fn arrow() -> (s: Self)
        ensures
            s.is_preset(seq!['→']),
    {
        let t = "→";
        proof {
            reveal_strlit("→");
            assert(t@ =~= seq!['→']);
        }
        Self::custom(t)
    }

    /// Preset `|`.
    pub fn pipe() -> (s: Self)
        ensures
            s.is_preset(seq!['|']),
    {
        let t = "|";
        proof {
            reveal_strlit("|");
            assert(t@ =~= seq!['|']);
        }
        Self::custom(t)
    }

    /// Preset `\`.
    pub fn backslash() -> (s: Self)
        ensures
            s.is_preset(seq!['\\']),
    {
        let t = "\\";
        proof {
            reveal_strlit("\\");
            assert(t@ =~= seq!['\\']);
        }
        Self::custom(t)
    }

    /// Preset `»`.
    pub fn double_angle() -> (s: Self)
        ensures
            s.is_preset(seq!['»']),
    {
        let t = "»";
        proof {
            reveal_strlit("»");
            assert(t@ =~= seq!['»']);
        }
        Self::custom(t)
    }

    /// Sets the style of the separator.
    pub fn style(self, style: Style) -> (s: Self)
        ensures
            s == (BreadcrumbSeparator { style, ..self }),
    {
        BreadcrumbSeparator { style, ..self }
    }

    /// Sets the padding on each side of the symbol.
    pub fn spacing(self, spacing: u16) -> (s: Self)
        ensures
            s == (BreadcrumbSeparator { spacing, ..self }),
    {
        BreadcrumbSeparator { spacing, ..self }
    }

    /// The columns the separator occupies, padding included.
    pub fn total_width(&self) -> (w: usize)
        ensures
            w == self.total_width_spec(),
    {
        let sym = str_width(self.symbol.as_str());
        let pad = 2 * (self.spacing as usize);
        add_cols(sym, pad)
    }
}

impl Clone for BreadcrumbSeparator {
    fn clone(&self) -> (s: Self)
        ensures
            s.symbol@ == self.symbol@,
            s.style == self.style,
            s.spacing == self.spacing,
    {
        BreadcrumbSeparator { symbol: self.symbol.clone(), style: self.style, spacing: self.spacing }
    }
}

impl Default for BreadcrumbSeparator {
    /// The default separator is the chevron preset.
    fn default() -> (s: Self)
        ensures
            s.is_preset(seq!['❯']),
    {
        Self::chevron()
    }
}

} // verus!
