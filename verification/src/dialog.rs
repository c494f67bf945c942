//! Modal dialog state and geometry: quit confirmation, save-as and go-to-line.

use vstd::prelude::*;

verus! {

/// A rectangle on the terminal grid.
#[derive(Debug, Clone, Copy, PartialEq, Eq, Structural)]
pub struct DialogArea {
    pub x: u16,
    pub y: u16,
    pub width: u16,
    pub height: u16,
}

/// The width that fits: the wanted width, or the screen width less a margin.
pub open spec fn clamped(want: u16, avail: u16, margin: u16) -> u16 {
    let room = if avail > margin {
        (avail - margin) as u16
    } else {
        0u16
    };
    if want < room {
        want
    } else {
        room
    }
}

/// A dialog area of the wanted size, centred on the screen.
pub open spec fn centred_area(screen_w: u16, screen_h: u16, want_w: u16, want_h: u16) -> DialogArea {
    let w = clamped(want_w, screen_w, 4);
    let h = clamped(want_h, screen_h, 2);
    DialogArea {
        x: (((screen_w - w) as u16) / 2) as u16,
        y: (((screen_h - h) as u16) / 2) as u16,
        width: w,
        height: h,
    }
}

/// Computes a centred dialog area.
pub fn make_centred_area(screen_w: u16, screen_h: u16, want_w: u16, want_h: u16) -> (r: DialogArea)
    ensures
        r == centred_area(screen_w, screen_h, want_w, want_h),
        r.width <= screen_w,
        r.height <= screen_h,
{
    let room_w: u16 = if screen_w > 4 {
        screen_w - 4
    } else {
        0
    };
    let w = if want_w < room_w {
        want_w
    } else {
        room_w
    };
    let room_h: u16 = if screen_h > 2 {
        screen_h - 2
    } else {
        0
    };
    let h = if want_h < room_h {
        want_h
    } else {
        room_h
    };
    DialogArea { x: (screen_w - w) / 2, y: (screen_h - h) / 2, width: w, height: h }
}

/// The quit confirmation dialog.
#[derive(Debug)]
pub struct QuitDialog;

impl QuitDialog {
    pub fn new() -> (r: Self) {
        QuitDialog
    }

    /// Where the dialog is drawn: 50 by 7, centred.
    pub fn dialog_area(screen_w: u16, screen_h: u16) -> (r: DialogArea)
        ensures
            r == centred_area(screen_w, screen_h, 50, 7),
    {
        make_centred_area(screen_w, screen_h, 50, 7)
    }
}

impl Default for QuitDialog {
    fn default() -> (r: Self) {
        Self::new()
    }
}

/// The save-as dialog, showing the file name typed so far.
#[derive(Debug)]
pub struct SaveAsDialog<'a> {
    pub filename: &'a str,
}

impl<'a> SaveAsDialog<'a> {
    pub fn new(filename: &'a str) -> (r: Self)
        ensures
            r.filename@ == filename@,
    {
        SaveAsDialog { filename }
    }

    /// Where the dialog is drawn: 60 by 7, centred.
    pub fn dialog_area(screen_w: u16, screen_h: u16) -> (r: DialogArea)
        ensures
            r == centred_area(screen_w, screen_h, 60, 7),
    {
        make_centred_area(screen_w, screen_h, 60, 7)
    }
}

/// The go-to-line dialog, showing the number typed so far and the position.
#[derive(Debug)]
pub struct GotoLineDialog<'a> {
    pub line_number: &'a str,
    pub current_line: usize,
    pub total_lines: usize,
}

impl<'a> GotoLineDialog<'a> {
    pub fn new(line_number: &'a str, current_line: usize, total_lines: usize) -> (r: Self)
        ensures
            r.line_number@ == line_number@,
            r.current_line == current_line,
            r.total_lines == total_lines,
    {
        GotoLineDialog { line_number, current_line, total_lines }
    }

    /// Where the dialog is drawn: 50 by 8, centred.
    pub fn dialog_area(screen_w: u16, screen_h: u16) -> (r: DialogArea)
        ensures
            r == centred_area(screen_w, screen_h, 50, 8),
    {
        make_centred_area(screen_w, screen_h, 50, 8)
    }
}

} // verus!
