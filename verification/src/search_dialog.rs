//! Search and replace dialog state and geometry.

use vstd::prelude::*;

use crate::dialog::DialogArea;

verus! {

/// Whether the dialog searches only or also replaces.
#[derive(Debug, Clone, Copy, PartialEq, Eq, Structural)]
pub enum SearchMode {
    Find,
    Replace,
}

/// Which input field has focus.
#[derive(Debug, Clone, Copy, PartialEq, Eq, Structural)]
pub enum SearchField {
    Search,
    Replace,
}

/// The search dialog, showing the queries, the match count and the focused
/// field.
#[derive(Debug)]
pub struct SearchDialog<'a> {
    pub search_query: &'a str,
    pub replace_query: &'a str,
    pub mode: SearchMode,
    pub match_count: usize,
    pub current_match: Option<usize>,
    pub active_field: SearchField,
}

impl<'a> SearchDialog<'a> {
    /// A find-only dialog with the search field focused.
    pub fn new(search_query: &'a str, match_count: usize, current_match: Option<usize>) -> (r:
        Self)
        ensures
            r.search_query@ == search_query@,
            r.replace_query@.len() == 0,
            r.mode == SearchMode::Find,
            r.match_count == match_count,
            r.current_match == current_match,
            r.active_field == SearchField::Search,
    {
        proof {
            reveal_strlit("");
        }
        SearchDialog {
            search_query,
            replace_query: "",
            mode: SearchMode::Find,
            match_count,
            current_match,
            active_field: SearchField::Search,
        }
    }

    /// Turns the dialog into a find-and-replace dialog.
    pub fn with_replace(self, replace_query: &'a str) -> (r: Self)
        ensures
            r.search_query@ == self.search_query@,
            r.replace_query@ == replace_query@,
            r.mode == SearchMode::Replace,
            r.match_count == self.match_count,
            r.current_match == self.current_match,
            r.active_field == self.active_field,
    {
        SearchDialog { replace_query, mode: SearchMode::Replace, ..self }
    }

    /// Moves focus to the given field.
    pub fn with_active_field(self, field: SearchField) -> (r: Self)
        ensures
            r.search_query@ == self.search_query@,
            r.replace_query@ == self.replace_query@,
            r.mode == self.mode,
            r.match_count == self.match_count,
            r.current_match == self.current_match,
            r.active_field == field,
    {
        SearchDialog { active_field: field, ..self }
    }

    /// Where the dialog is drawn: near the top, 60 wide, taller in replace
    /// mode.
    pub fn dialog_area(screen_w: u16, screen_h: u16, mode: SearchMode) -> (r: DialogArea)
        ensures
            r.width == crate::dialog::clamped(60, screen_w, 4),
            r.height == crate::dialog::clamped(
                if mode == SearchMode::Replace {
                    10u16
                } else {
                    8u16
                },
                screen_h,
                2,
            ),
            r.y == 2,
            r.x == ((screen_w - r.width) as u16) / 2,
    {
        let room_w: u16 = if screen_w > 4 {
            screen_w - 4
        } else {
            0
        };
        let w = if 60 < room_w {
            60
        } else {
            room_w
        };
        let want_h: u16 = if mode == SearchMode::Replace {
            10
        } else {
            8
        };
        let room_h: u16 = if screen_h > 2 {
            screen_h - 2
        } else {
            0
        };
        let h = if want_h < room_h {
            want_h
        } else {
            room_h
        };
        DialogArea { x: (screen_w - w) / 2, y: 2, width: w, height: h }
    }
}

} // verus!
