//! The data side of the tree browser: actions, messages, viewport
//! arithmetic and presentation rules. Rendering and event reading live
//! with the caller.

use vstd::prelude::*;
use crate::strutil::dec_digits;
use crate::tree::{NodeKind, RepoNode};

verus! {

/// High-level actions emitted by the browser and handled by the
/// application controller.
#[derive(Debug, Clone, Copy, PartialEq, Eq, Structural)]
pub enum AppAction {
    Up,
    Down,
    Left,
    Right,
    Select,
    ToggleMark,
    Help,
    Quit,
}

/// Messages sent from the browser loop to the application controller.
#[derive(Debug, Clone)]
pub enum AppMessage {
    /// Request to copy the file at the given remote path.
    CopyRequest { path: String },
}

/// A terminal colour, as an abstract value the renderer maps to its own
/// colour type (the indexed greys and blues of the palette get named
/// variants).
#[derive(Debug, Clone, Copy, PartialEq, Eq, Structural)]
pub enum UiColor {
    White,
    Yellow,
    /// The blue used behind the selected row.
    SelectedBlue,
    /// The dimmed grey of hidden entries.
    HiddenGrey,
    /// The grey of the footer hint bar.
    FooterGrey,
}

/// The colour palette of the browser.
pub struct Palette;

impl Palette {
    /// Normal (unselected) text colour.
    pub const NORMAL: UiColor = UiColor::White;

    /// Background for the currently selected row.
    pub const SELECTED_BG: UiColor = UiColor::SelectedBlue;

    /// Foreground for the currently selected row.
    pub const SELECTED_FG: UiColor = UiColor::White;

    /// Dimmed colour for hidden entries.
    pub const HIDDEN: UiColor = UiColor::HiddenGrey;

    /// Breadcrumb foreground colour.
    pub const BREADCRUMB: UiColor = UiColor::Yellow;

    /// Footer hint bar foreground.
    pub const FOOTER: UiColor = UiColor::FooterGrey;
}

/// The icon shown for a node: a folder for directories, a page for rule
/// files, a package for manifests.
pub fn icon_for(node: &RepoNode) -> (r: char)
    ensures
        node.kind == NodeKind::Dir ==> r == '\u{1F4C1}',
        node.kind == NodeKind::RuleFile ==> r == '\u{1F4C4}',
        node.kind == NodeKind::Manifest ==> r == '\u{1F4E6}',
{
    match node.kind {
        NodeKind::Dir => '\u{1F4C1}',
        NodeKind::RuleFile => '\u{1F4C4}',
        NodeKind::Manifest => '\u{1F4E6}',
    }
}

/// Hidden entries (dot-files) are dimmed; everything else is normal.
pub fn fg_color(node: &RepoNode) -> (r: UiColor)
    ensures
        r == if node.name@.len() > 0 && node.name@[0] == '.' {
            UiColor::HiddenGrey
        } else {
            UiColor::White
        },
{
    let name_len: usize = node.name.as_str().unicode_len();
    if name_len > 0 && node.name.as_str().get_char(0) == '.' {
        UiColor::HiddenGrey
    } else {
        UiColor::White
    }
}

/// The annotation bubble for a node: a file count for manifests that have
/// one, empty otherwise.
pub fn bubble(node: &RepoNode) -> (r: String)
    ensures
        match node.manifest_count {
            Some(c) => r@ == "  ["@ + dec_digits(c as nat) + " files]"@,
            None => r@.len() == 0,
        },
{
    match node.manifest_count {
        Some(count) => {
            let mut s = String::from_str("  [");
            let digits = crate::strutil::u64_to_dec_chars(count as u64);
            let ds = crate::strutil::chars_to_string(&digits);
            s.append(ds.as_str());
            s.append(" files]");
            proof {
                assert(s@ =~= "  ["@ + dec_digits(count as nat) + " files]"@);
            }
            s
        },
        None => String::new(),
    }
}

/// Keeps track of the portion of the tree currently visible and keeps the
/// selection within bounds.
#[derive(Debug, Clone, Copy, PartialEq, Eq, Structural)]
pub struct Viewport {
    /// Index of the first visible item.
    pub scroll_offset: usize,
    /// Index of the selected item.
    pub selected_index: usize,
}

impl Viewport {
    /// A viewport at the top with the first item selected.
    pub fn new() -> (r: Self)
        ensures
            r.scroll_offset == 0,
            r.selected_index == 0,
    {
        Viewport { scroll_offset: 0, selected_index: 0 }
    }

    /// Move the selection up one item (stops at the top).
    pub fn up(&mut self)
        ensures
            final(self).selected_index == if old(self).selected_index > 0 {
                (old(self).selected_index - 1) as usize
            } else {
                0usize
            },
            final(self).scroll_offset == old(self).scroll_offset,
    {
        if self.selected_index > 0 {
            self.selected_index = self.selected_index - 1;
        }
    }

    /// Move the selection down one item (stops at the last of
    /// `total_items`).
    pub fn down(&mut self, total_items: usize)
        ensures
            final(self).selected_index == if old(self).selected_index + 1 < total_items {
                (old(self).selected_index + 1) as usize
            } else {
                old(self).selected_index
            },
            final(self).scroll_offset == old(self).scroll_offset,
    {
        if self.selected_index < usize::MAX && self.selected_index + 1 < total_items {
            self.selected_index = self.selected_index + 1;
        }
    }

    /// Adjust the scroll offset so the selection stays within a view of
    /// the given height.
    pub fn ensure_visible(&mut self, view_height: usize)
        requires
            view_height > 0 || old(self).selected_index < usize::MAX,
        ensures
            final(self).selected_index == old(self).selected_index,
            final(self).scroll_offset as int == if old(self).selected_index < old(
                self,
            ).scroll_offset {
                old(self).selected_index as int
            } else if old(self).selected_index as int >= old(self).scroll_offset as int
                + view_height as int {
                old(self).selected_index as int + 1 - view_height as int
            } else {
                old(self).scroll_offset as int
            },
    {
        if self.selected_index < self.scroll_offset {
            self.scroll_offset = self.selected_index;
        } else if self.selected_index - self.scroll_offset >= view_height {
            if view_height > 0 {
                self.scroll_offset = self.selected_index - view_height + 1;
            } else {
                self.scroll_offset = self.selected_index + 1;
            }
        }
    }
}

impl Default for Viewport {
    fn default() -> (r: Self)
        ensures
            r.scroll_offset == 0,
            r.selected_index == 0,
    {
        Viewport::new()
    }
}

} // verus!
