//! Query execution dialog state and geometry.

use vstd::prelude::*;

use crate::dialog::DialogArea;
use crate::dialog::centred_area;
use crate::dialog::make_centred_area;

verus! {

/// The query dialog, showing the query and its result once one exists.
#[derive(Debug)]
pub struct MqQueryDialog<'a> {
    pub query: &'a str,
    pub result: Option<&'a str>,
}

impl<'a> MqQueryDialog<'a> {
    pub fn new(query: &'a str, result: Option<&'a str>) -> (r: Self)
        ensures
            r.query@ == query@,
            match (r.result, result) {
                (Some(a), Some(b)) => a@ == b@,
                (None, None) => true,
                _ => false,
            },
    {
        MqQueryDialog { query, result }
    }

    /// Where the dialog is drawn: 60 wide, 7 tall with a result, 5 without.
    pub fn dialog_area(screen_w: u16, screen_h: u16, has_result: bool) -> (r: DialogArea)
        ensures
            r == centred_area(
                screen_w,
                screen_h,
                60,
                if has_result {
                    7u16
                } else {
                    5u16
                },
            ),
    {
        if has_result {
            make_centred_area(screen_w, screen_h, 60, 7)
        } else {
            make_centred_area(screen_w, screen_h, 60, 5)
        }
    }
}

} // verus!
