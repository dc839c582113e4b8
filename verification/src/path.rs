//! Breadcrumb segments from filesystem paths: one segment per component of
//! the path, as the standard library splits it.

use vstd::prelude::*;
use crate::item::BreadcrumbItem;
use crate::text::line_spans;
use crate::geometry::modifier_style;
use crate::separator::BreadcrumbSeparator;
use crate::widget::Breadcrumb;

verus! {

/// A component of a filesystem path, with its text where it has one.
#[derive(Debug, PartialEq, Eq)]
pub enum PathPart {
    /// The root directory (`/`).
    RootDir,
    /// A prefix such as a drive letter (Windows only).
    Prefix(String),
    /// The current directory (`.`).
    CurDir,
    /// The parent directory (`..`).
    ParentDir,
    /// A file or directory name.
    Normal(String),
}

/// The label text of a path component: `/`, `.` and `..` for the special
/// ones, else its own text.
pub open spec fn part_text(p: PathPart) -> Seq<char> {
    match p {
        PathPart::RootDir => seq!['/'],
        PathPart::Prefix(s) => s@,
        PathPart::CurDir => seq!['.'],
        PathPart::ParentDir => seq!['.', '.'],
        PathPart::Normal(s) => s@,
    }
}

/// The item is a plain segment labelled with (the spans `Line::raw` makes of)
/// `text`: default span styles, no style overrides, no dropdown.
pub open spec fn is_plain_item(item: BreadcrumbItem, text: Seq<char>) -> bool {
    &&& item.label.texts() == line_spans(text)
    &&& forall|i: int| 0 <= i < item.label.spans@.len() ==> #[trigger] item.label.spans@[i].style == modifier_style(0)
    &&& item.style is None
    &&& item.selected_style is None
    &&& !item.has_dropdown
    &&& item.dropdown_symbol is None
}

/// A path component as plain values: its kind (0 root, 1 prefix, 2 current
/// directory, 3 parent directory, 4 name) and its text where it has one.
pub open spec fn part_view(p: PathPart) -> (u8, Seq<char>) {
    match p {
        PathPart::RootDir => (0u8, Seq::empty()),
        PathPart::Prefix(s) => (1u8, s@),
        PathPart::CurDir => (2u8, Seq::empty()),
        PathPart::ParentDir => (3u8, Seq::empty()),
        PathPart::Normal(s) => (4u8, s@),
    }
}

/// The plain values of a sequence of components.
pub open spec fn parts_view(parts: Seq<PathPart>) -> Seq<(u8, Seq<char>)> {
    parts.map_values(|p: PathPart| part_view(p))
}

/// The label text of a component given as plain values.
pub open spec fn part_view_text(v: (u8, Seq<char>)) -> Seq<char> {
    if v.0 == 0 {
        seq!['/']
    } else if v.0 == 2 {
        seq!['.']
    } else if v.0 == 3 {
        seq!['.', '.']
    } else {
        v.1
    }
}

/// The components, as plain values, that `std::path::Path::components`
/// splits the path `path` into for the target the crate is built for.
pub uninterp spec fn path_parts(path: Seq<char>) -> Seq<(u8, Seq<char>)>;

/// Calls `std::path::Path::components` on `path` and hands back its
/// components in order, the text of a name or prefix converted with
/// `to_string_lossy`. The split is a function of the path alone (for the
/// target built for), named `path_parts`; nothing more is stated of it.
#[verifier::external_body]
fn path_components(path: &str) -> (parts: Vec<PathPart>)
    ensures
        parts_view(parts@) == path_parts(path@),
{
    let mut parts = Vec::new();
    for c in std::path::Path::new(path).components() {
        parts.push(match c {
            std::path::Component::RootDir => PathPart::RootDir,
            std::path::Component::Prefix(p) => PathPart::Prefix(p.as_os_str().to_string_lossy().into_owned()),
            std::path::Component::CurDir => PathPart::CurDir,
            std::path::Component::ParentDir => PathPart::ParentDir,
            std::path::Component::Normal(s) => PathPart::Normal(s.to_string_lossy().into_owned()),
        });
    }
    parts
}

/// One plain segment per path component, in order.
pub fn items_from_parts(parts: &Vec<PathPart>) -> (items: Vec<BreadcrumbItem>)
    ensures
        items@.len() == parts@.len(),
        forall|i: int| 0 <= i < parts@.len() ==> #[trigger] is_plain_item(items@[i], part_text(parts@[i])),
{
    let mut items: Vec<BreadcrumbItem> = Vec::new();
    let n = parts.len();
    for i in 0..n
        invariant
            n == parts@.len(),
            items@.len() == i,
            forall|j: int| 0 <= j < i ==> #[trigger] is_plain_item(items@[j], part_text(parts@[j])),
    {
        let item = match &parts[i] {
            PathPart::RootDir => {
                let t = "/";
                proof {
                    reveal_strlit("/");
                    assert(t@ =~= seq!['/']);
                }
                BreadcrumbItem::new(t)
            },
            PathPart::Prefix(s) => BreadcrumbItem::new(s.as_str()),
            PathPart::CurDir => {
                let t = ".";
                proof {
                    reveal_strlit(".");
                    assert(t@ =~= seq!['.']);
                }
                BreadcrumbItem::new(t)
            },
            PathPart::ParentDir => {
                let t = "..";
                proof {
                    reveal_strlit("..");
                    assert(t@ =~= seq!['.', '.']);
                }
                BreadcrumbItem::new(t)
            },
            PathPart::Normal(s) => BreadcrumbItem::new(s.as_str()),
        };
        items.push(item);
    }
    items
}

/// The segments of a filesystem path: one plain segment per component as
/// the standard library splits the path, labelled `/` for the root, `.` and
/// `..` for the special components, and with its text for a name or prefix.
pub fn from_path(path: &str) -> (items: Vec<BreadcrumbItem>)
    ensures
        items@.len() == path_parts(path@).len(),
        forall|i: int|
            0 <= i < items@.len() ==> #[trigger] is_plain_item(items@[i], part_view_text(path_parts(path@)[i])),
{
    let parts = path_components(path);
    let items = items_from_parts(&parts);
    assert forall|i: int| 0 <= i < items@.len() implies #[trigger] is_plain_item(
        items@[i],
        part_view_text(path_parts(path@)[i]),
    ) by {
        assert(parts_view(parts@)[i] == part_view(parts@[i]));
        assert(part_view_text(part_view(parts@[i])) =~= part_text(parts@[i]));
    }
    items
}

impl Breadcrumb {
    /// A trail of the segments of a filesystem path (see `from_path`), with
    /// the slash separator and every other setting at its default.
    pub fn from_path(path: &str) -> (b: Breadcrumb)
        ensures
            b.items@.len() == path_parts(path@).len(),
            forall|i: int|
                0 <= i < b.items@.len() ==> #[trigger] is_plain_item(b.items@[i], part_view_text(path_parts(path@)[i])),
            b.separator.is_preset(seq!['/']),
            b.has_default_look(),
    {
        let items = from_path(path);
        Breadcrumb::new(items).separator(BreadcrumbSeparator::slash())
    }
}

} // verus!
