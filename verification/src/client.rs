//! The process-backed client core: it builds outbound frames, correlates
//! responses by request id, and turns decoded bodies into typed events.
//!
//! The process itself, its pipes and the reader loop live outside; they hand
//! every received body to `handle_frame` and write out what `take_outbox`
//! yields.

use vstd::prelude::*;

use crate::codec::DecodedMessage;
use crate::codec::decode_body;
use crate::codec::encode_notification;
use crate::codec::encode_request;
use crate::codec::frame_message;
use crate::codec::obj_lookup;
use crate::events::CompletionItem;
use crate::events::CompletionItemView;
use crate::events::CompletionKind;
use crate::events::Diagnostic;
use crate::events::DiagnosticView;
use crate::events::Event;
use crate::events::EventView;
use crate::events::Location;
use crate::events::LocationView;
use crate::events::Position;
use crate::events::Range;
use crate::events::Severity;
use crate::ids::PendingRequests;
use crate::ids::RequestIdGen;
use crate::json::Json;
use crate::json::JsonView;

verus! {

/// A `u32` read from a JSON value, when it holds one.
pub open spec fn u32_of_json(v: JsonView) -> Option<u32> {
    match v {
        JsonView::Num(n) => if 0 <= n <= u32::MAX as int {
            Option::Some(n as u32)
        } else {
            Option::None
        },
        _ => Option::None,
    }
}

/// Reads a `u32` from a JSON value.
pub fn read_u32(v: &Json) -> (r: Option<u32>)
    ensures
        r == u32_of_json(v@),
{
    match v {
        Json::Num { neg, mag } => {
            if *neg && *mag > 0 {
                None
            } else if *mag <= u32::MAX as u64 {
                Some(*mag as u32)
            } else {
                None
            }
        },
        _ => None,
    }
}

/// A position read from `{"line": _, "character": _}`.
pub open spec fn position_of_json(v: JsonView) -> Option<Position> {
    match v {
        JsonView::Obj(m) => {
            match (obj_lookup(m, "line"@), obj_lookup(m, "character"@)) {
                (Option::Some(l), Option::Some(c)) => {
                    match (u32_of_json(l), u32_of_json(c)) {
                        (Option::Some(line), Option::Some(character)) => Option::Some(
                            Position { line, character },
                        ),
                        _ => Option::None,
                    }
                },
                _ => Option::None,
            }
        },
        _ => Option::None,
    }
}

/// Reads a position.
pub fn read_position(v: &Json) -> (r: Option<Position>)
    ensures
        r == position_of_json(v@),
{
    match v {
        Json::Obj(m) => {
            proof {
                crate::json::lemma_obj_views(m@);
            }
            let l = crate::codec::obj_member(m, "line");
            let c = crate::codec::obj_member(m, "character");
            match (l, c) {
                (Some(lj), Some(cj)) => {
                    match (read_u32(lj), read_u32(cj)) {
                        (Some(line), Some(character)) => Some(Position { line, character }),
                        _ => None,
                    }
                },
                _ => None,
            }
        },
        _ => None,
    }
}

/// A range read from `{"start": _, "end": _}`.
pub open spec fn range_of_json(v: JsonView) -> Option<Range> {
    match v {
        JsonView::Obj(m) => {
            match (obj_lookup(m, "start"@), obj_lookup(m, "end"@)) {
                (Option::Some(s), Option::Some(e)) => {
                    match (position_of_json(s), position_of_json(e)) {
                        (Option::Some(start), Option::Some(end)) => Option::Some(
                            Range { start, end },
                        ),
                        _ => Option::None,
                    }
                },
                _ => Option::None,
            }
        },
        _ => Option::None,
    }
}

/// Reads a range.
pub fn read_range(v: &Json) -> (r: Option<Range>)
    ensures
        r == range_of_json(v@),
{
    match v {
        Json::Obj(m) => {
            proof {
                crate::json::lemma_obj_views(m@);
            }
            let s = crate::codec::obj_member(m, "start");
            let e = crate::codec::obj_member(m, "end");
            match (s, e) {
                (Some(sj), Some(ej)) => {
                    match (read_position(sj), read_position(ej)) {
                        (Some(start), Some(end)) => Some(Range { start, end }),
                        _ => None,
                    }
                },
                _ => None,
            }
        },
        _ => None,
    }
}

/// A location read from `{"uri": _, "range": _}`.
pub open spec fn location_of_json(v: JsonView) -> Option<LocationView> {
    match v {
        JsonView::Obj(m) => {
            match (obj_lookup(m, "uri"@), obj_lookup(m, "range"@)) {
                (Option::Some(JsonView::Str(uri)), Option::Some(rv)) => {
                    match range_of_json(rv) {
                        Option::Some(range) => Option::Some(LocationView { uri, range }),
                        Option::None => Option::None,
                    }
                },
                _ => Option::None,
            }
        },
        _ => Option::None,
    }
}

/// Reads a location.
pub fn read_location(v: &Json) -> (r: Option<Location>)
    ensures
        match r {
            Some(l) => location_of_json(v@) == Option::Some(l@),
            None => location_of_json(v@) is None,
        },
{
    match v {
        Json::Obj(m) => {
            proof {
                crate::json::lemma_obj_views(m@);
            }
            let u = crate::codec::obj_member(m, "uri");
            let rv = crate::codec::obj_member(m, "range");
            match (u, rv) {
                (Some(Json::Str(uri)), Some(rj)) => {
                    match read_range(rj) {
                        Some(range) => Some(Location { uri: uri.clone(), range }),
                        None => None,
                    }
                },
                _ => None,
            }
        },
        _ => None,
    }
}

/// The locations of a JSON array, or nothing when any element is not a
/// location.
pub open spec fn locations_of_json(items: Seq<JsonView>) -> Option<Seq<LocationView>>
    decreases items.len(),
{
    if items.len() == 0 {
        Option::Some(Seq::<LocationView>::empty())
    } else {
        match location_of_json(items[0]) {
            Option::Some(l) => {
                match locations_of_json(items.drop_first()) {
                    Option::Some(rest) => Option::Some(seq![l] + rest),
                    Option::None => Option::None,
                }
            },
            Option::None => Option::None,
        }
    }
}

/// Reads an array of locations.
pub fn read_locations(items: &Vec<Json>) -> (r: Option<Vec<Location>>)
    ensures
        match r {
            Some(ls) => locations_of_json(crate::json::arr_views(items@)) == Option::Some(
                ls.deep_view(),
            ),
            None => locations_of_json(crate::json::arr_views(items@)) is None,
        },
{
    proof {
        crate::json::lemma_arr_views(items@);
    }
    let ghost vs = crate::json::arr_views(items@);
    let mut out: Vec<Location> = Vec::new();
    let mut i: usize = 0;
    while i < items.len()
        invariant
            0 <= i <= items@.len(),
            vs == crate::json::arr_views(items@),
            vs.len() == items@.len(),
            forall|k: int|
                0 <= k < items@.len() ==> #[trigger] vs[k] == crate::json::json_view(items@[k]),
            out.deep_view().len() == i,
            forall|k: int|
                0 <= k < i ==> location_of_json(vs[k]) == Option::Some(
                    #[trigger] out.deep_view()[k],
                ),
        decreases items@.len() - i,
    {
        match read_location(&items[i]) {
            Some(l) => {
                let ghost pre = out.deep_view();
                let ghost lv = l@;
                out.push(l);
                proof {
                    assert(out.deep_view() =~= pre.push(lv));
                }
            },
            None => {
                proof {
                    lemma_locations_prefix_none(vs, i as int);
                }
                return None;
            },
        }
        i = i + 1;
    }
    proof {
        lemma_locations_prefix_all(vs, out.deep_view());
    }
    Some(out)
}

/// When element `i` is not a location, the whole array reads as nothing.
proof fn lemma_locations_prefix_none(vs: Seq<JsonView>, i: int)
    requires
        0 <= i < vs.len(),
        location_of_json(vs[i]) is None,
    ensures
        locations_of_json(vs) is None,
    decreases vs.len(),
{
    if vs.len() == 0 {
    } else if i == 0 {
    } else {
        if location_of_json(vs[0]) is Some {
            assert(vs.drop_first()[i - 1] == vs[i]);
            lemma_locations_prefix_none(vs.drop_first(), i - 1);
        }
    }
}

/// When every element reads as a location, the array reads as all of them.
proof fn lemma_locations_prefix_all(vs: Seq<JsonView>, ls: Seq<LocationView>)
    requires
        ls.len() == vs.len(),
        forall|k: int|
            0 <= k < vs.len() ==> location_of_json(#[trigger] vs[k]) == Option::Some(ls[k]),
    ensures
        locations_of_json(vs) == Option::Some(ls),
    decreases vs.len(),
{
    if vs.len() == 0 {
        assert(ls =~= Seq::<LocationView>::empty());
    } else {
        assert forall|k: int|
            0 <= k < vs.drop_first().len() implies location_of_json(
            #[trigger] vs.drop_first()[k],
        ) == Option::Some(ls.drop_first()[k]) by {
            assert(vs.drop_first()[k] == vs[k + 1]);
            assert(ls.drop_first()[k] == ls[k + 1]);
        }
        lemma_locations_prefix_all(vs.drop_first(), ls.drop_first());
        assert(location_of_json(vs[0]) == Option::Some(ls[0]));
        assert(seq![ls[0]] + ls.drop_first() =~= ls);
    }
}


/// A completion item read from a server's JSON: the label is required; the
/// kind maps 15 to snippet and 18 to reference; insert text format 2 marks a
/// snippet.
pub open spec fn item_of_json(v: JsonView) -> Option<CompletionItemView> {
    match v {
        JsonView::Obj(m) => {
            match obj_lookup(m, "label"@) {
                Option::Some(JsonView::Str(label)) => Option::Some(
                    CompletionItemView {
                        label: label,
                        detail: match obj_lookup(m, "detail"@) {
                            Option::Some(JsonView::Str(d)) => Option::Some(d),
                            _ => Option::None,
                        },
                        kind: match obj_lookup(m, "kind"@) {
                            Option::Some(JsonView::Num(k)) => if k == 15 {
                                CompletionKind::Snippet
                            } else if k == 18 {
                                CompletionKind::Reference
                            } else {
                                CompletionKind::Other
                            },
                            _ => CompletionKind::Other,
                        },
                        insert_text: match obj_lookup(m, "insertText"@) {
                            Option::Some(JsonView::Str(t)) => Option::Some(t),
                            _ => Option::None,
                        },
                        snippet: obj_lookup(m, "insertTextFormat"@) == Option::Some(
                            JsonView::Num(2),
                        ),
                        sort_text: match obj_lookup(m, "sortText"@) {
                            Option::Some(JsonView::Str(t)) => Option::Some(t),
                            _ => Option::None,
                        },
                    },
                ),
                _ => Option::None,
            }
        },
        _ => Option::None,
    }
}

/// Reads a completion item.
pub fn read_item(v: &Json) -> (r: Option<CompletionItem>)
    ensures
        match r {
            Some(it) => item_of_json(v@) == Option::Some(it@),
            None => item_of_json(v@) is None,
        },
{
    match v {
        Json::Obj(m) => {
            proof {
                crate::json::lemma_obj_views(m@);
            }
            let label = match crate::codec::obj_member(m, "label") {
                Some(Json::Str(l)) => l.clone(),
                _ => {
                    return None;
                },
            };
            let detail = match crate::codec::obj_member(m, "detail") {
                Some(Json::Str(d)) => Some(d.clone()),
                _ => None,
            };
            let kind = match crate::codec::obj_member(m, "kind") {
                Some(Json::Num { neg, mag }) => {
                    if !*neg && *mag == 15 {
                        CompletionKind::Snippet
                    } else if !*neg && *mag == 18 {
                        CompletionKind::Reference
                    } else {
                        CompletionKind::Other
                    }
                },
                _ => CompletionKind::Other,
            };
            let insert_text = match crate::codec::obj_member(m, "insertText") {
                Some(Json::Str(t)) => Some(t.clone()),
                _ => None,
            };
            let snippet = match crate::codec::obj_member(m, "insertTextFormat") {
                Some(Json::Num { neg, mag }) => !*neg && *mag == 2,
                _ => false,
            };
            let sort_text = match crate::codec::obj_member(m, "sortText") {
                Some(Json::Str(t)) => Some(t.clone()),
                _ => None,
            };
            Some(CompletionItem { label, detail, kind, insert_text, snippet, sort_text })
        },
        _ => None,
    }
}

/// The items of a completion response array.
pub open spec fn items_of_json(items: Seq<JsonView>) -> Option<Seq<CompletionItemView>>
    decreases items.len(),
{
    if items.len() == 0 {
        Option::Some(Seq::<CompletionItemView>::empty())
    } else {
        match item_of_json(items[0]) {
            Option::Some(it) => {
                match items_of_json(items.drop_first()) {
                    Option::Some(rest) => Option::Some(seq![it] + rest),
                    Option::None => Option::None,
                }
            },
            Option::None => Option::None,
        }
    }
}

/// Reads an array of completion items.
pub fn read_items(items: &Vec<Json>) -> (r: Option<Vec<CompletionItem>>)
    ensures
        match r {
            Some(its) => items_of_json(crate::json::arr_views(items@)) == Option::Some(
                its.deep_view(),
            ),
            None => items_of_json(crate::json::arr_views(items@)) is None,
        },
{
    proof {
        crate::json::lemma_arr_views(items@);
    }
    let ghost vs = crate::json::arr_views(items@);
    let mut out: Vec<CompletionItem> = Vec::new();
    let mut i: usize = 0;
    while i < items.len()
        invariant
            0 <= i <= items@.len(),
            vs == crate::json::arr_views(items@),
            vs.len() == items@.len(),
            forall|k: int|
                0 <= k < items@.len() ==> #[trigger] vs[k] == crate::json::json_view(items@[k]),
            out.deep_view().len() == i,
            forall|k: int|
                0 <= k < i ==> item_of_json(vs[k]) == Option::Some(
                    #[trigger] out.deep_view()[k],
                ),
        decreases items@.len() - i,
    {
        match read_item(&items[i]) {
            Some(it) => {
                let ghost pre = out.deep_view();
                let ghost iv = it@;
                out.push(it);
                proof {
                    assert(out.deep_view() =~= pre.push(iv));
                }
            },
            None => {
                proof {
                    lemma_items_prefix_none(vs, i as int);
                }
                return None;
            },
        }
        i = i + 1;
    }
    proof {
        lemma_items_prefix_all(vs, out.deep_view());
    }
    Some(out)
}

proof fn lemma_items_prefix_none(vs: Seq<JsonView>, i: int)
    requires
        0 <= i < vs.len(),
        item_of_json(vs[i]) is None,
    ensures
        items_of_json(vs) is None,
    decreases vs.len(),
{
    if vs.len() == 0 {
    } else if i == 0 {
    } else {
        if item_of_json(vs[0]) is Some {
            assert(vs.drop_first()[i - 1] == vs[i]);
            lemma_items_prefix_none(vs.drop_first(), i - 1);
        }
    }
}

proof fn lemma_items_prefix_all(vs: Seq<JsonView>, its: Seq<CompletionItemView>)
    requires
        its.len() == vs.len(),
        forall|k: int|
            0 <= k < vs.len() ==> item_of_json(#[trigger] vs[k]) == Option::Some(its[k]),
    ensures
        items_of_json(vs) == Option::Some(its),
    decreases vs.len(),
{
    if vs.len() == 0 {
        assert(its =~= Seq::<CompletionItemView>::empty());
    } else {
        assert forall|k: int|
            0 <= k < vs.drop_first().len() implies item_of_json(
            #[trigger] vs.drop_first()[k],
        ) == Option::Some(its.drop_first()[k]) by {
            assert(vs.drop_first()[k] == vs[k + 1]);
            assert(its.drop_first()[k] == its[k + 1]);
        }
        lemma_items_prefix_all(vs.drop_first(), its.drop_first());
        assert(seq![its[0]] + its.drop_first() =~= its);
    }
}

/// A diagnostic read from a server's JSON: range and message are required;
/// severity 1 through 4 maps to error, warning, information, hint.
pub open spec fn diag_of_json(v: JsonView) -> Option<DiagnosticView> {
    match v {
        JsonView::Obj(m) => {
            match (obj_lookup(m, "range"@), obj_lookup(m, "message"@)) {
                (Option::Some(rv), Option::Some(JsonView::Str(message))) => {
                    match range_of_json(rv) {
                        Option::Some(range) => Option::Some(
                            DiagnosticView {
                                range,
                                severity: match obj_lookup(m, "severity"@) {
                                    Option::Some(JsonView::Num(s)) => if s == 1 {
                                        Option::Some(Severity::Error)
                                    } else if s == 2 {
                                        Option::Some(Severity::Warning)
                                    } else if s == 3 {
                                        Option::Some(Severity::Information)
                                    } else if s == 4 {
                                        Option::Some(Severity::Hint)
                                    } else {
                                        Option::None
                                    },
                                    _ => Option::None,
                                },
                                message,
                            },
                        ),
                        Option::None => Option::None,
                    }
                },
                _ => Option::None,
            }
        },
        _ => Option::None,
    }
}

/// Reads a diagnostic.
pub fn read_diag(v: &Json) -> (r: Option<Diagnostic>)
    ensures
        match r {
            Some(d) => diag_of_json(v@) == Option::Some(d@),
            None => diag_of_json(v@) is None,
        },
{
    match v {
        Json::Obj(m) => {
            proof {
                crate::json::lemma_obj_views(m@);
            }
            let rv = crate::codec::obj_member(m, "range");
            let msg = crate::codec::obj_member(m, "message");
            match (rv, msg) {
                (Some(rj), Some(Json::Str(message))) => {
                    match read_range(rj) {
                        Some(range) => {
                            let severity = match crate::codec::obj_member(m, "severity") {
                                Some(Json::Num { neg, mag }) => {
                                    if !*neg && *mag == 1 {
                                        Some(Severity::Error)
                                    } else if !*neg && *mag == 2 {
                                        Some(Severity::Warning)
                                    } else if !*neg && *mag == 3 {
                                        Some(Severity::Information)
                                    } else if !*neg && *mag == 4 {
                                        Some(Severity::Hint)
                                    } else {
                                        None
                                    }
                                },
                                _ => None,
                            };
                            Some(Diagnostic { range, severity, message: message.clone() })
                        },
                        None => None,
                    }
                },
                _ => None,
            }
        },
        _ => None,
    }
}

/// The diagnostics of an array.
pub open spec fn diags_of_json(items: Seq<JsonView>) -> Option<Seq<DiagnosticView>>
    decreases items.len(),
{
    if items.len() == 0 {
        Option::Some(Seq::<DiagnosticView>::empty())
    } else {
        match diag_of_json(items[0]) {
            Option::Some(d) => {
                match diags_of_json(items.drop_first()) {
                    Option::Some(rest) => Option::Some(seq![d] + rest),
                    Option::None => Option::None,
                }
            },
            Option::None => Option::None,
        }
    }
}

/// Reads an array of diagnostics.
pub fn read_diags(items: &Vec<Json>) -> (r: Option<Vec<Diagnostic>>)
    ensures
        match r {
            Some(ds) => diags_of_json(crate::json::arr_views(items@)) == Option::Some(
                ds.deep_view(),
            ),
            None => diags_of_json(crate::json::arr_views(items@)) is None,
        },
{
    proof {
        crate::json::lemma_arr_views(items@);
    }
    let ghost vs = crate::json::arr_views(items@);
    let mut out: Vec<Diagnostic> = Vec::new();
    let mut i: usize = 0;
    while i < items.len()
        invariant
            0 <= i <= items@.len(),
            vs == crate::json::arr_views(items@),
            vs.len() == items@.len(),
            forall|k: int|
                0 <= k < items@.len() ==> #[trigger] vs[k] == crate::json::json_view(items@[k]),
            out.deep_view().len() == i,
            forall|k: int|
                0 <= k < i ==> diag_of_json(vs[k]) == Option::Some(
                    #[trigger] out.deep_view()[k],
                ),
        decreases items@.len() - i,
    {
        match read_diag(&items[i]) {
            Some(d) => {
                let ghost pre = out.deep_view();
                let ghost dv = d@;
                out.push(d);
                proof {
                    assert(out.deep_view() =~= pre.push(dv));
                }
            },
            None => {
                proof {
                    lemma_diags_prefix_none(vs, i as int);
                }
                return None;
            },
        }
        i = i + 1;
    }
    proof {
        lemma_diags_prefix_all(vs, out.deep_view());
    }
    Some(out)
}

proof fn lemma_diags_prefix_none(vs: Seq<JsonView>, i: int)
    requires
        0 <= i < vs.len(),
        diag_of_json(vs[i]) is None,
    ensures
        diags_of_json(vs) is None,
    decreases vs.len(),
{
    if vs.len() == 0 {
    } else if i == 0 {
    } else {
        if diag_of_json(vs[0]) is Some {
            assert(vs.drop_first()[i - 1] == vs[i]);
            lemma_diags_prefix_none(vs.drop_first(), i - 1);
        }
    }
}

proof fn lemma_diags_prefix_all(vs: Seq<JsonView>, ds: Seq<DiagnosticView>)
    requires
        ds.len() == vs.len(),
        forall|k: int|
            0 <= k < vs.len() ==> diag_of_json(#[trigger] vs[k]) == Option::Some(ds[k]),
    ensures
        diags_of_json(vs) == Option::Some(ds),
    decreases vs.len(),
{
    if vs.len() == 0 {
        assert(ds =~= Seq::<DiagnosticView>::empty());
    } else {
        assert forall|k: int|
            0 <= k < vs.drop_first().len() implies diag_of_json(
            #[trigger] vs.drop_first()[k],
        ) == Option::Some(ds.drop_first()[k]) by {
            assert(vs.drop_first()[k] == vs[k + 1]);
            assert(ds.drop_first()[k] == ds[k + 1]);
        }
        lemma_diags_prefix_all(vs.drop_first(), ds.drop_first());
        assert(seq![ds[0]] + ds.drop_first() =~= ds);
    }
}

/// The strings of an array; elements that are not strings are skipped.
pub open spec fn strings_of_json(items: Seq<JsonView>) -> Seq<Seq<char>>
    decreases items.len(),
{
    if items.len() == 0 {
        Seq::<Seq<char>>::empty()
    } else {
        let rest = strings_of_json(items.drop_first());
        match items[0] {
            JsonView::Str(s) => seq![s] + rest,
            _ => rest,
        }
    }
}

/// Reads the strings of an array.
pub fn read_strings(items: &Vec<Json>) -> (r: Vec<String>)
    ensures
        r.deep_view() == strings_of_json(crate::json::arr_views(items@)),
{
    proof {
        crate::json::lemma_arr_views(items@);
    }
    let ghost vs = crate::json::arr_views(items@);
    let mut out: Vec<String> = Vec::new();
    let mut i: usize = 0;
    proof {
        assert(out.deep_view() =~= Seq::<Seq<char>>::empty());
        assert(vs.skip(0) =~= vs);
        assert(strings_of_json(vs) =~= out.deep_view() + strings_of_json(vs));
    }
    while i < items.len()
        invariant
            0 <= i <= items@.len(),
            vs == crate::json::arr_views(items@),
            vs.len() == items@.len(),
            forall|k: int|
                0 <= k < items@.len() ==> #[trigger] vs[k] == crate::json::json_view(items@[k]),
            strings_of_json(vs) == out.deep_view() + strings_of_json(vs.skip(i as int)),
        decreases items@.len() - i,
    {
        let ghost pre = out.deep_view();
        proof {
            assert(vs.skip(i as int).len() > 0);
            assert(vs.skip(i as int)[0] == vs[i as int]);
            assert(vs.skip(i as int).drop_first() =~= vs.skip(i as int + 1));
        }
        match &items[i] {
            Json::Str(t) => {
                out.push(t.clone());
                proof {
                    assert(out.deep_view() =~= pre.push(vs[i as int]->Str_0));
                    assert(pre + (seq![vs[i as int]->Str_0] + strings_of_json(
                        vs.skip(i as int + 1),
                    )) =~= out.deep_view() + strings_of_json(vs.skip(i as int + 1)));
                }
            },
            _ => {},
        }
        i = i + 1;
    }
    proof {
        assert(vs.skip(vs.len() as int) =~= Seq::<JsonView>::empty());
        assert(out.deep_view() + Seq::<Seq<char>>::empty() =~= out.deep_view());
    }
    out
}

/// The trigger characters of an initialize result:
/// `capabilities.completionProvider.triggerCharacters`, or empty.
pub open spec fn trigger_chars_of_json(v: JsonView) -> Seq<Seq<char>> {
    match v {
        JsonView::Obj(m) => {
            match obj_lookup(m, "capabilities"@) {
                Option::Some(JsonView::Obj(cm)) => {
                    match obj_lookup(cm, "completionProvider"@) {
                        Option::Some(JsonView::Obj(pm)) => {
                            match obj_lookup(pm, "triggerCharacters"@) {
                                Option::Some(JsonView::Arr(items)) => strings_of_json(items),
                                _ => Seq::<Seq<char>>::empty(),
                            }
                        },
                        _ => Seq::<Seq<char>>::empty(),
                    }
                },
                _ => Seq::<Seq<char>>::empty(),
            }
        },
        _ => Seq::<Seq<char>>::empty(),
    }
}

/// Reads the trigger characters of an initialize result.
pub fn read_trigger_chars(v: &Json) -> (r: Vec<String>)
    ensures
        r.deep_view() == trigger_chars_of_json(v@),
{
    match v {
        Json::Obj(m) => {
            proof {
                crate::json::lemma_obj_views(m@);
            }
            match crate::codec::obj_member(m, "capabilities") {
                Some(Json::Obj(cm)) => {
                    proof {
                        crate::json::lemma_obj_views(cm@);
                    }
                    match crate::codec::obj_member(cm, "completionProvider") {
                        Some(Json::Obj(pm)) => {
                            proof {
                                crate::json::lemma_obj_views(pm@);
                            }
                            match crate::codec::obj_member(pm, "triggerCharacters") {
                                Some(Json::Arr(items)) => read_strings(items),
                                _ => Vec::new(),
                            }
                        },
                        _ => Vec::new(),
                    }
                },
                _ => Vec::new(),
            }
        },
        _ => Vec::new(),
    }
}

/// The semantic token stream of a result: its `data` numbers, each fitting
/// `u32`, or nothing.
pub open spec fn tokens_of_json(v: JsonView) -> Option<Seq<u32>> {
    match v {
        JsonView::Obj(m) => {
            match obj_lookup(m, "data"@) {
                Option::Some(JsonView::Arr(items)) => nums_of_json(items),
                _ => Option::None,
            }
        },
        _ => Option::None,
    }
}

pub open spec fn nums_of_json(items: Seq<JsonView>) -> Option<Seq<u32>>
    decreases items.len(),
{
    if items.len() == 0 {
        Option::Some(Seq::<u32>::empty())
    } else {
        match u32_of_json(items[0]) {
            Option::Some(n) => {
                match nums_of_json(items.drop_first()) {
                    Option::Some(rest) => Option::Some(seq![n] + rest),
                    Option::None => Option::None,
                }
            },
            Option::None => Option::None,
        }
    }
}

/// Reads an array of `u32` values.
fn read_nums(items: &Vec<Json>) -> (r: Option<Vec<u32>>)
    ensures
        match r {
            Some(ns) => nums_of_json(crate::json::arr_views(items@)) == Option::Some(ns@),
            None => nums_of_json(crate::json::arr_views(items@)) is None,
        },
{
    proof {
        crate::json::lemma_arr_views(items@);
    }
    let ghost vs = crate::json::arr_views(items@);
    let mut out: Vec<u32> = Vec::new();
    let mut i: usize = 0;
    while i < items.len()
        invariant
            0 <= i <= items@.len(),
            vs == crate::json::arr_views(items@),
            vs.len() == items@.len(),
            forall|k: int|
                0 <= k < items@.len() ==> #[trigger] vs[k] == crate::json::json_view(items@[k]),
            out@.len() == i,
            forall|k: int|
                0 <= k < i ==> u32_of_json(vs[k]) == Option::Some(#[trigger] out@[k]),
        decreases items@.len() - i,
    {
        match read_u32(&items[i]) {
            Some(n) => {
                out.push(n);
            },
            None => {
                proof {
                    lemma_nums_prefix_none(vs, i as int);
                }
                return None;
            },
        }
        i = i + 1;
    }
    proof {
        lemma_nums_prefix_all(vs, out@);
    }
    Some(out)
}

/// Reads a semantic token stream.
pub fn read_tokens(v: &Json) -> (r: Option<Vec<u32>>)
    ensures
        match r {
            Some(ts) => tokens_of_json(v@) == Option::Some(ts@),
            None => tokens_of_json(v@) is None,
        },
{
    match v {
        Json::Obj(m) => {
            proof {
                crate::json::lemma_obj_views(m@);
            }
            match crate::codec::obj_member(m, "data") {
                Some(Json::Arr(items)) => read_nums(items),
                _ => None,
            }
        },
        _ => None,
    }
}

proof fn lemma_nums_prefix_none(vs: Seq<JsonView>, i: int)
    requires
        0 <= i < vs.len(),
        u32_of_json(vs[i]) is None,
    ensures
        nums_of_json(vs) is None,
    decreases vs.len(),
{
    if vs.len() == 0 {
    } else if i == 0 {
    } else {
        if u32_of_json(vs[0]) is Some {
            assert(vs.drop_first()[i - 1] == vs[i]);
            lemma_nums_prefix_none(vs.drop_first(), i - 1);
        }
    }
}

proof fn lemma_nums_prefix_all(vs: Seq<JsonView>, ns: Seq<u32>)
    requires
        ns.len() == vs.len(),
        forall|k: int| 0 <= k < vs.len() ==> u32_of_json(#[trigger] vs[k]) == Option::Some(ns[k]),
    ensures
        nums_of_json(vs) == Option::Some(ns),
    decreases vs.len(),
{
    if vs.len() == 0 {
        assert(ns =~= Seq::<u32>::empty());
    } else {
        assert forall|k: int|
            0 <= k < vs.drop_first().len() implies u32_of_json(#[trigger] vs.drop_first()[k])
            == Option::Some(ns.drop_first()[k]) by {
            assert(vs.drop_first()[k] == vs[k + 1]);
            assert(ns.drop_first()[k] == ns[k + 1]);
        }
        lemma_nums_prefix_all(vs.drop_first(), ns.drop_first());
        assert(seq![ns[0]] + ns.drop_first() =~= ns);
    }
}


/// A definition answer read from a result: one location, or an array of
/// locations.
pub open spec fn definition_of_json(v: JsonView) -> Option<
    crate::events::DefinitionResponseView,
> {
    match v {
        JsonView::Obj(_) => match location_of_json(v) {
            Option::Some(l) => Option::Some(crate::events::DefinitionResponseView::Single(l)),
            Option::None => Option::None,
        },
        JsonView::Arr(items) => match locations_of_json(items) {
            Option::Some(ls) => Option::Some(crate::events::DefinitionResponseView::Many(ls)),
            Option::None => Option::None,
        },
        _ => Option::None,
    }
}

/// The items of a completion result: a bare array, or a list object.
pub open spec fn completion_of_json(v: JsonView) -> Option<Seq<CompletionItemView>> {
    match v {
        JsonView::Arr(items) => items_of_json(items),
        JsonView::Obj(m) => match obj_lookup(m, "items"@) {
            Option::Some(JsonView::Arr(items)) => items_of_json(items),
            _ => Option::None,
        },
        _ => Option::None,
    }
}

/// The message of an error event for a response error.
pub open spec fn error_message_of(msg: Seq<char>, code: int) -> Seq<char> {
    "LSP error: "@ + msg + " (code: "@ + crate::json::ser_num(code) + ")"@
}

/// The events a routed response produces, by the method the id was sent
/// under.
pub open spec fn response_events(method: Seq<char>, result: JsonView) -> Seq<EventView> {
    if method == "initialize"@ {
        seq![EventView::Initialized { trigger_characters: trigger_chars_of_json(result) }]
    } else if method == "textDocument/definition"@ {
        match definition_of_json(result) {
            Option::Some(d) => seq![EventView::Definition { response: d }],
            Option::None => Seq::<EventView>::empty(),
        }
    } else if method == "textDocument/references"@ {
        match result {
            JsonView::Arr(items) => match locations_of_json(items) {
                Option::Some(ls) => seq![EventView::References { locations: ls }],
                Option::None => Seq::<EventView>::empty(),
            },
            _ => Seq::<EventView>::empty(),
        }
    } else if method == "textDocument/completion"@ {
        match completion_of_json(result) {
            Option::Some(its) => seq![EventView::Completion { items: its }],
            Option::None => Seq::<EventView>::empty(),
        }
    } else if method == "textDocument/semanticTokens/full"@ {
        match tokens_of_json(result) {
            Option::Some(data) => seq![
                EventView::SemanticTokens { uri: Seq::<char>::empty(), data: data },
            ],
            Option::None => Seq::<EventView>::empty(),
        }
    } else {
        Seq::<EventView>::empty()
    }
}

/// The event a publish-diagnostics notification produces.
pub open spec fn notification_events(method: Seq<char>, params: JsonView) -> Seq<EventView> {
    if method == "textDocument/publishDiagnostics"@ {
        match params {
            JsonView::Obj(m) => {
                match (obj_lookup(m, "uri"@), obj_lookup(m, "diagnostics"@)) {
                    (Option::Some(JsonView::Str(uri)), Option::Some(JsonView::Arr(items))) => {
                        match diags_of_json(items) {
                            Option::Some(ds) => seq![
                                EventView::Diagnostics { uri: uri, diagnostics: ds },
                            ],
                            Option::None => Seq::<EventView>::empty(),
                        }
                    },
                    _ => Seq::<EventView>::empty(),
                }
            },
            _ => Seq::<EventView>::empty(),
        }
    } else {
        Seq::<EventView>::empty()
    }
}

/// The protocol state of one spawned language server: the id source, the
/// pending-request table, the outbound frame queue and the event queue.
pub struct ProcessClientCore {
    pub language_id: String,
    pub root_path: String,
    pub gen: RequestIdGen,
    pub pending: PendingRequests,
    pub events: Vec<Event>,
    pub outbox: Vec<String>,
}

impl ProcessClientCore {
    /// The structural invariant: the id source and table are well formed,
    /// and every pending id was issued, so it lies below the next id.
    pub open spec fn wf(&self) -> bool {
        &&& self.gen.wf()
        &&& self.pending.wf()
        &&& forall|i: int|
            0 <= i < self.pending.entries@.len() ==> (#[trigger] self.pending.entries@[i]).0
                < self.gen.next
    }

    /// A fresh client core.
    pub fn new(language_id: String, root_path: String) -> (r: Self)
        ensures
            r.wf(),
            r.language_id@ == language_id@,
            r.root_path@ == root_path@,
            r.gen.next == 1,
            r.pending.entries@.len() == 0,
            r.events@.len() == 0,
            r.outbox@.len() == 0,
    {
        ProcessClientCore {
            language_id,
            root_path,
            gen: RequestIdGen::new(),
            pending: PendingRequests::new(),
            events: Vec::new(),
            outbox: Vec::new(),
        }
    }

    /// Assigns the next id to a request, records it as pending, and queues
    /// the framed bytes.
    pub fn send_request(&mut self, method: &str, params: Json) -> (id: u64)
        requires
            old(self).wf(),
            old(self).gen.next < u64::MAX,
        ensures
            final(self).wf(),
            id == old(self).gen.next,
            final(self).gen.next == old(self).gen.next + 1,
            final(self).pending.spec_contains(id),
            final(self).pending.spec_method_of(id) == method@,
            final(self).pending.entries@.len() == old(self).pending.entries@.len() + 1,
            forall|k: int|
                0 <= k < old(self).pending.entries@.len() ==> #[trigger] final(self).pending.entries@[k] == old(self).pending.entries@[k],
            final(self).pending.entries@.last().0 == id,
            (final(self).pending.entries@.last().1)@ == method@,
            forall|x: u64|
                x != id ==> #[trigger] final(self).pending.spec_contains(x) == old(self).pending.spec_contains(x),
            final(self).outbox.deep_view() == old(self).outbox.deep_view() + seq![
                crate::codec::frame_body_view(
                    crate::json::ser_json(
                        crate::codec::request_view(id as int, method@, params@),
                    ),
                ),
            ],
            final(self).events@ == old(self).events@,
            final(self).language_id@ == old(self).language_id@,
            final(self).root_path@ == old(self).root_path@,
    {
        let id = self.gen.issue();
        proof {
            if self.pending.spec_contains(id) {
                let i = choose|i: int|
                    0 <= i < self.pending.entries@.len() && (
                    #[trigger] self.pending.entries@[i]).0 == id;
                assert(old(self).pending.entries@[i].0 < id);
            }
        }
        self.pending.insert(id, method.to_owned());
        let body = encode_request(id, method, params);
        let frame = frame_message(body.as_str());
        let ghost pre = self.outbox.deep_view();
        let ghost fv = frame@;
        self.outbox.push(frame);
        proof {
            assert(self.outbox.deep_view() =~= pre + seq![fv]);
        }
        id
    }

    /// Queues the framed bytes of a notification.
    pub fn send_notification(&mut self, method: &str, params: Json)
        ensures
            final(self).outbox.deep_view() == old(self).outbox.deep_view() + seq![
                crate::codec::frame_body_view(
                    crate::json::ser_json(crate::codec::notification_view(method@, params@)),
                ),
            ],
            final(self).events@ == old(self).events@,
            final(self).pending.entries@ == old(self).pending.entries@,
            final(self).gen == old(self).gen,
            final(self).wf() == old(self).wf(),
            final(self).language_id@ == old(self).language_id@,
            final(self).root_path@ == old(self).root_path@,
    {
        let body = encode_notification(method, params);
        let frame = frame_message(body.as_str());
        let ghost pre = self.outbox.deep_view();
        let ghost fv = frame@;
        self.outbox.push(frame);
        proof {
            assert(self.outbox.deep_view() =~= pre + seq![fv]);
        }
    }

    /// Takes every queued outbound frame, oldest first.
    pub fn take_outbox(&mut self) -> (r: Vec<String>)
        ensures
            r@ == old(self).outbox@,
            final(self).outbox@.len() == 0,
            final(self).events@ == old(self).events@,
            final(self).pending.entries@ == old(self).pending.entries@,
            final(self).gen == old(self).gen,
            final(self).language_id@ == old(self).language_id@,
            final(self).root_path@ == old(self).root_path@,
            final(self).wf() == old(self).wf(),
    {
        let mut out: Vec<String> = Vec::new();
        core::mem::swap(&mut out, &mut self.outbox);
        out
    }

    /// Takes every queued event, oldest first.
    pub fn drain_events(&mut self) -> (r: Vec<Event>)
        ensures
            r@ == old(self).events@,
            final(self).events@.len() == 0,
            final(self).outbox@ == old(self).outbox@,
            final(self).pending.entries@ == old(self).pending.entries@,
            final(self).gen == old(self).gen,
            final(self).language_id@ == old(self).language_id@,
            final(self).root_path@ == old(self).root_path@,
            final(self).wf() == old(self).wf(),
    {
        let mut out: Vec<Event> = Vec::new();
        core::mem::swap(&mut out, &mut self.events);
        out
    }

    /// Handles one received body. A response's id is looked up in the
    /// pending table and removed; a response with an unknown id — stray,
    /// duplicate or late — is dropped silently, whatever it carries. For a
    /// known id, an error member becomes an error event and a result is
    /// routed by the method the id was sent under. A publish-diagnostics
    /// notification becomes a diagnostics event; an undecodable body
    /// changes nothing.
    pub fn handle_frame(&mut self, body: &str)
        requires
            old(self).wf(),
        ensures
            final(self).wf(),
            final(self).outbox@ == old(self).outbox@,
            final(self).gen == old(self).gen,
            final(self).language_id@ == old(self).language_id@,
            ({
                let parsed = crate::json::parse_text(body@);
                if parsed is None || crate::codec::decode_spec(parsed->0) is None {
                    final(self).events@ == old(self).events@ && final(self).pending.entries@
                        == old(self).pending.entries@
                } else {
                    match crate::codec::decode_spec(parsed->0)->0 {
                        crate::codec::DecodedView::Response { id, result, error } => {
                            if old(self).pending.spec_contains(id as u64) {
                                &&& !final(self).pending.spec_contains(id as u64)
                                &&& (forall|x: u64|
                                    x != id as u64 ==> #[trigger] final(self).pending.spec_contains(x) == old(self).pending.spec_contains(x))
                                &&& match error {
                                    Option::Some(ce) => final(self).events.deep_view() == old(self).events.deep_view() + seq![
                                        EventView::Error { message: error_message_of(ce.1, ce.0) },
                                    ],
                                    Option::None => match result {
                                        Option::Some(res) => final(self).events.deep_view() == old(self).events.deep_view() + response_events(
                                            old(self).pending.spec_method_of(id as u64),
                                            res,
                                        ),
                                        Option::None => final(self).events@ == old(self).events@,
                                    },
                                }
                            } else {
                                final(self).events@ == old(self).events@ && final(self).pending.entries@ == old(self).pending.entries@
                            }
                        },
                        crate::codec::DecodedView::Notification { method, params } => {
                            final(self).events.deep_view() == old(self).events.deep_view()
                                + notification_events(method, params) && final(self).pending.entries@ == old(self).pending.entries@
                        },
                        crate::codec::DecodedView::Request { .. } => {
                            final(self).events@ == old(self).events@ && final(self).pending.entries@ == old(self).pending.entries@
                        },
                    }
                }
            }),
    {
        let decoded = match decode_body(body) {
            Some(d) => d,
            None => {
                return ;
            },
        };
        proof {
            let v = choose|v: JsonView|
                crate::json::parse_text(body@) == Option::Some(v)
                    && #[trigger] crate::codec::decode_spec(v) == Option::Some(decoded@);
            assert(crate::json::parse_text(body@) == Option::Some(v));
            assert(crate::codec::decode_spec(v) == Option::Some(decoded@));
        }
        match decoded {
            DecodedMessage::Response { id, result, error } => {
                let method = match self.pending.remove(id) {
                    Some(m) => m,
                    None => {
                        return ;
                    },
                };
                proof {
                    assert(!self.pending.spec_contains(id));
                    assert forall|x: u64| x != id implies #[trigger] self.pending.spec_contains(x)
                        == old(self).pending.spec_contains(x) by {}
                    assert forall|i: int|
                        0 <= i < self.pending.entries@.len() implies (
                    #[trigger] self.pending.entries@[i]).0 < self.gen.next by {
                        let x = self.pending.entries@[i].0;
                        assert(self.pending.spec_contains(x));
                        assert(x != id);
                        assert(old(self).pending.spec_contains(x));
                        let k = choose|k: int|
                            0 <= k < old(self).pending.entries@.len() && (
                            #[trigger] old(self).pending.entries@[k]).0 == x;
                        assert(old(self).pending.entries@[k].0 < self.gen.next);
                    }
                }
                match error {
                    Some(e) => {
                        let mut msg = crate::text::to_chars("LSP error: ");
                        let mc = crate::text::to_chars(e.message.as_str());
                        append_chars(&mut msg, &mc);
                        let mid = crate::text::to_chars(" (code: ");
                        append_chars(&mut msg, &mid);
                        if e.code_neg && e.code_mag > 0 {
                            msg.push('-');
                        }
                        let digits = crate::text::format_decimal(e.code_mag);
                        append_chars(&mut msg, &digits);
                        msg.push(')');
                        proof {
                            reveal_strlit(")");
                            assert(")"@ =~= seq![')']);
                            let code = if e.code_neg {
                                -(e.code_mag as int)
                            } else {
                                e.code_mag as int
                            };
                            if e.code_neg && e.code_mag == 0 {
                                assert(crate::json::ser_num(code) == crate::text::decimal_digits(
                                    0,
                                ));
                            }
                            assert(msg@ =~= error_message_of(e.message@, code));
                        }
                        let ghost pre = self.events.deep_view();
                        let ghost mv = msg@;
                        self.events.push(
                            Event::Error { message: crate::text::from_chars(&msg) },
                        );
                        proof {
                            assert(self.events.deep_view() =~= pre + seq![
                                EventView::Error { message: mv },
                            ]);
                        }
                    },
                    None => {
                        match result {
                            Some(res) => {
                                self.route_response(method.as_str(), &res);
                            },
                            None => {},
                        }
                    },
                }
            },
            DecodedMessage::Notification { method, params } => {
                if crate::text::str_eq(method.as_str(), "textDocument/publishDiagnostics") {
                    self.publish_diagnostics(&params);
                } else {
                    proof {
                        assert(notification_events(method@, params@) =~= Seq::<
                            EventView,
                        >::empty());
                        assert(self.events.deep_view() + Seq::<EventView>::empty()
                            =~= self.events.deep_view());
                    }
                }
            },
            DecodedMessage::Request { .. } => {},
        }
    }

    /// Routes a successful response by its request's method.
    fn route_response(&mut self, method: &str, res: &Json)
        ensures
            final(self).events.deep_view() == old(self).events.deep_view() + response_events(
                method@,
                res@,
            ),
            final(self).pending == old(self).pending,
            final(self).outbox@ == old(self).outbox@,
            final(self).gen == old(self).gen,
            final(self).language_id@ == old(self).language_id@,
            final(self).wf() == old(self).wf(),
    {
        let ghost pre = self.events.deep_view();
        if crate::text::str_eq(method, "initialize") {
            let chars = read_trigger_chars(res);
            let ghost cv = chars.deep_view();
            self.events.push(Event::Initialized { trigger_characters: chars });
            proof {
                assert(self.events.deep_view() =~= pre + seq![
                    EventView::Initialized { trigger_characters: cv },
                ]);
            }
            return ;
        }
        if crate::text::str_eq(method, "textDocument/definition") {
            match res {
                Json::Obj(_) => {
                    match read_location(res) {
                        Some(l) => {
                            let ghost lv = l@;
                            self.events.push(
                                Event::Definition {
                                    response: crate::events::DefinitionResponse::Single(l),
                                },
                            );
                            proof {
                                assert(self.events.deep_view() =~= pre + seq![
                                    EventView::Definition {
                                        response: crate::events::DefinitionResponseView::Single(
                                            lv,
                                        ),
                                    },
                                ]);
                            }
                        },
                        None => {
                            proof {
                                assert(self.events.deep_view() =~= pre + Seq::<
                                    EventView,
                                >::empty());
                            }
                        },
                    }
                },
                Json::Arr(items) => {
                    match read_locations(items) {
                        Some(ls) => {
                            let ghost lv = ls.deep_view();
                            self.events.push(
                                Event::Definition {
                                    response: crate::events::DefinitionResponse::Many(ls),
                                },
                            );
                            proof {
                                assert(self.events.deep_view() =~= pre + seq![
                                    EventView::Definition {
                                        response: crate::events::DefinitionResponseView::Many(lv),
                                    },
                                ]);
                            }
                        },
                        None => {
                            proof {
                                assert(self.events.deep_view() =~= pre + Seq::<
                                    EventView,
                                >::empty());
                            }
                        },
                    }
                },
                _ => {
                    proof {
                        assert(self.events.deep_view() =~= pre + Seq::<EventView>::empty());
                    }
                },
            }
            return ;
        }
        if crate::text::str_eq(method, "textDocument/references") {
            match res {
                Json::Arr(items) => {
                    match read_locations(items) {
                        Some(ls) => {
                            let ghost lv = ls.deep_view();
                            self.events.push(Event::References { locations: ls });
                            proof {
                                assert(self.events.deep_view() =~= pre + seq![
                                    EventView::References { locations: lv },
                                ]);
                            }
                        },
                        None => {
                            proof {
                                assert(self.events.deep_view() =~= pre + Seq::<
                                    EventView,
                                >::empty());
                            }
                        },
                    }
                },
                _ => {
                    proof {
                        assert(self.events.deep_view() =~= pre + Seq::<EventView>::empty());
                    }
                },
            }
            return ;
        }
        if crate::text::str_eq(method, "textDocument/completion") {
            let items = match res {
                Json::Arr(items) => read_items(items),
                Json::Obj(m) => {
                    proof {
                        crate::json::lemma_obj_views(m@);
                    }
                    match crate::codec::obj_member(m, "items") {
                        Some(Json::Arr(items)) => read_items(items),
                        _ => None,
                    }
                },
                _ => None,
            };
            match items {
                Some(its) => {
                    let ghost iv = its.deep_view();
                    self.events.push(Event::Completion { items: its });
                    proof {
                        assert(self.events.deep_view() =~= pre + seq![
                            EventView::Completion { items: iv },
                        ]);
                    }
                },
                None => {
                    proof {
                        assert(self.events.deep_view() =~= pre + Seq::<EventView>::empty());
                    }
                },
            }
            return ;
        }
        if crate::text::str_eq(method, "textDocument/semanticTokens/full") {
            match read_tokens(res) {
                Some(data) => {
                    let ghost dv = data@;
                    self.events.push(
                        Event::SemanticTokens { uri: "".to_owned(), data },
                    );
                    proof {
                        reveal_strlit("");
                        assert(""@ =~= Seq::<char>::empty());
                        assert(self.events.deep_view() =~= pre + seq![
                            EventView::SemanticTokens { uri: Seq::<char>::empty(), data: dv },
                        ]);
                    }
                },
                None => {
                    proof {
                        assert(self.events.deep_view() =~= pre + Seq::<EventView>::empty());
                    }
                },
            }
            return ;
        }
        proof {
            assert(response_events(method@, res@) =~= Seq::<EventView>::empty());
            assert(self.events.deep_view() =~= pre + Seq::<EventView>::empty());
        }
    }

    /// Publishes the diagnostics of a publish-diagnostics notification.
    fn publish_diagnostics(&mut self, params: &Json)
        ensures
            final(self).events.deep_view() == old(self).events.deep_view()
                + notification_events("textDocument/publishDiagnostics"@, params@),
            final(self).pending == old(self).pending,
            final(self).outbox@ == old(self).outbox@,
            final(self).gen == old(self).gen,
            final(self).language_id@ == old(self).language_id@,
            final(self).wf() == old(self).wf(),
    {
        let ghost pre = self.events.deep_view();
        match params {
            Json::Obj(m) => {
                proof {
                    crate::json::lemma_obj_views(m@);
                }
                let uri = crate::codec::obj_member(m, "uri");
                let ds = crate::codec::obj_member(m, "diagnostics");
                match (uri, ds) {
                    (Some(Json::Str(u)), Some(Json::Arr(items))) => {
                        match read_diags(items) {
                            Some(dlist) => {
                                let ghost dv = dlist.deep_view();
                                let ghost uv = u@;
                                self.events.push(
                                    Event::Diagnostics { uri: u.clone(), diagnostics: dlist },
                                );
                                proof {
                                    assert(self.events.deep_view() =~= pre + seq![
                                        EventView::Diagnostics { uri: uv, diagnostics: dv },
                                    ]);
                                }
                            },
                            None => {
                                proof {
                                    assert(self.events.deep_view() =~= pre + Seq::<
                                        EventView,
                                    >::empty());
                                }
                            },
                        }
                    },
                    _ => {
                        proof {
                            assert(self.events.deep_view() =~= pre + Seq::<EventView>::empty());
                        }
                    },
                }
            },
            _ => {
                proof {
                    assert(self.events.deep_view() =~= pre + Seq::<EventView>::empty());
                }
            },
        }
    }
}

/// Appends all of `src` to `out`.
fn append_chars(out: &mut Vec<char>, src: &Vec<char>)
    ensures
        final(out)@ == old(out)@ + src@,
{
    let mut i: usize = 0;
    proof {
        assert(out@ =~= old(out)@ + src@.take(0));
    }
    while i < src.len()
        invariant
            0 <= i <= src@.len(),
            out@ == old(out)@ + src@.take(i as int),
        decreases src@.len() - i,
    {
        proof {
            assert(src@.take(i as int + 1) =~= src@.take(i as int).push(src@[i as int]));
            assert(old(out)@ + src@.take(i as int + 1) =~= (old(out)@ + src@.take(i as int)).push(
                src@[i as int],
            ));
        }
        out.push(src[i]);
        i = i + 1;
    }
    proof {
        assert(src@.take(src@.len() as int) =~= src@);
    }
}


/// The URI of a file path, as the wire messages carry it.
pub open spec fn file_uri_of(path: Seq<char>) -> Seq<char> {
    "file:///"@ + path
}

/// Builds the wire URI of a path.
fn make_file_uri(path: &str) -> (r: String)
    ensures
        r@ == file_uri_of(path@),
{
    let mut out = "file:///".to_owned();
    out.append(path);
    out
}

/// A `{"uri": _}` text document identifier.
pub open spec fn text_document_view(uri: Seq<char>) -> JsonView {
    JsonView::Obj(seq![("uri"@, JsonView::Str(uri))])
}

fn make_text_document(uri: &str) -> (r: Json)
    ensures
        r@ == text_document_view(uri@),
{
    let r = Json::Obj(vec![("uri".to_owned(), Json::Str(uri.to_owned()))]);
    proof {
        crate::json::lemma_obj_views(r->Obj_0@);
        assert(r@->Obj_0 =~= text_document_view(uri@)->Obj_0);
    }
    r
}

/// A `{"line": _, "character": _}` position.
pub open spec fn position_view(line: u32, character: u32) -> JsonView {
    JsonView::Obj(
        seq![
            ("line"@, JsonView::Num(line as int)),
            ("character"@, JsonView::Num(character as int)),
        ],
    )
}

fn make_position(line: u32, character: u32) -> (r: Json)
    ensures
        r@ == position_view(line, character),
{
    let r = Json::Obj(
        vec![
            ("line".to_owned(), Json::Num { neg: false, mag: line as u64 }),
            ("character".to_owned(), Json::Num { neg: false, mag: character as u64 }),
        ],
    );
    proof {
        crate::json::lemma_obj_views(r->Obj_0@);
        assert(r@->Obj_0 =~= position_view(line, character)->Obj_0);
    }
    r
}

/// The semantic token types the client understands, in legend order.
pub open spec fn token_types_view() -> JsonView {
    JsonView::Arr(
        seq![
            JsonView::Str("namespace"@),
            JsonView::Str("type"@),
            JsonView::Str("class"@),
            JsonView::Str("enum"@),
            JsonView::Str("interface"@),
            JsonView::Str("struct"@),
            JsonView::Str("typeParameter"@),
            JsonView::Str("parameter"@),
            JsonView::Str("variable"@),
            JsonView::Str("property"@),
            JsonView::Str("enumMember"@),
            JsonView::Str("function"@),
            JsonView::Str("method"@),
            JsonView::Str("macro"@),
            JsonView::Str("keyword"@),
            JsonView::Str("comment"@),
            JsonView::Str("string"@),
            JsonView::Str("number"@),
            JsonView::Str("operator"@),
        ],
    )
}

/// The semantic token modifiers the client understands, in legend order.
pub open spec fn token_modifiers_view() -> JsonView {
    JsonView::Arr(
        seq![
            JsonView::Str("declaration"@),
            JsonView::Str("definition"@),
            JsonView::Str("readonly"@),
            JsonView::Str("static"@),
            JsonView::Str("deprecated"@),
            JsonView::Str("abstract"@),
            JsonView::Str("async"@),
            JsonView::Str("modification"@),
            JsonView::Str("documentation"@),
            JsonView::Str("defaultLibrary"@),
        ],
    )
}

#[verifier::rlimit(100)]
fn make_token_types() -> (r: Json)
    ensures
        r@ == token_types_view(),
{
    let mut items: Vec<Json> = Vec::new();
    items.push(Json::Str("namespace".to_owned()));
    items.push(Json::Str("type".to_owned()));
    items.push(Json::Str("class".to_owned()));
    items.push(Json::Str("enum".to_owned()));
    items.push(Json::Str("interface".to_owned()));
    items.push(Json::Str("struct".to_owned()));
    items.push(Json::Str("typeParameter".to_owned()));
    items.push(Json::Str("parameter".to_owned()));
    items.push(Json::Str("variable".to_owned()));
    items.push(Json::Str("property".to_owned()));
    items.push(Json::Str("enumMember".to_owned()));
    items.push(Json::Str("function".to_owned()));
    items.push(Json::Str("method".to_owned()));
    items.push(Json::Str("macro".to_owned()));
    items.push(Json::Str("keyword".to_owned()));
    items.push(Json::Str("comment".to_owned()));
    items.push(Json::Str("string".to_owned()));
    items.push(Json::Str("number".to_owned()));
    items.push(Json::Str("operator".to_owned()));
    let r = Json::Arr(items);
    proof {
        crate::json::lemma_arr_views(r->Arr_0@);
        assert(r->Arr_0@.len() == 19);
        assert(r->Arr_0@[0]@ == JsonView::Str("namespace"@));
        assert(r->Arr_0@[1]@ == JsonView::Str("type"@));
        assert(r->Arr_0@[2]@ == JsonView::Str("class"@));
        assert(r->Arr_0@[3]@ == JsonView::Str("enum"@));
        assert(r->Arr_0@[4]@ == JsonView::Str("interface"@));
        assert(r->Arr_0@[5]@ == JsonView::Str("struct"@));
        assert(r->Arr_0@[6]@ == JsonView::Str("typeParameter"@));
        assert(r->Arr_0@[7]@ == JsonView::Str("parameter"@));
        assert(r->Arr_0@[8]@ == JsonView::Str("variable"@));
        assert(r->Arr_0@[9]@ == JsonView::Str("property"@));
        assert(r->Arr_0@[10]@ == JsonView::Str("enumMember"@));
        assert(r->Arr_0@[11]@ == JsonView::Str("function"@));
        assert(r->Arr_0@[12]@ == JsonView::Str("method"@));
        assert(r->Arr_0@[13]@ == JsonView::Str("macro"@));
        assert(r->Arr_0@[14]@ == JsonView::Str("keyword"@));
        assert(r->Arr_0@[15]@ == JsonView::Str("comment"@));
        assert(r->Arr_0@[16]@ == JsonView::Str("string"@));
        assert(r->Arr_0@[17]@ == JsonView::Str("number"@));
        assert(r->Arr_0@[18]@ == JsonView::Str("operator"@));
        assert(r@->Arr_0 =~= token_types_view()->Arr_0);
    }
    r
}

#[verifier::rlimit(100)]
fn make_token_modifiers() -> (r: Json)
    ensures
        r@ == token_modifiers_view(),
{
    let mut items: Vec<Json> = Vec::new();
    items.push(Json::Str("declaration".to_owned()));
    items.push(Json::Str("definition".to_owned()));
    items.push(Json::Str("readonly".to_owned()));
    items.push(Json::Str("static".to_owned()));
    items.push(Json::Str("deprecated".to_owned()));
    items.push(Json::Str("abstract".to_owned()));
    items.push(Json::Str("async".to_owned()));
    items.push(Json::Str("modification".to_owned()));
    items.push(Json::Str("documentation".to_owned()));
    items.push(Json::Str("defaultLibrary".to_owned()));
    let r = Json::Arr(items);
    proof {
        crate::json::lemma_arr_views(r->Arr_0@);
        assert(r->Arr_0@.len() == 10);
        assert(r->Arr_0@[0]@ == JsonView::Str("declaration"@));
        assert(r->Arr_0@[1]@ == JsonView::Str("definition"@));
        assert(r->Arr_0@[2]@ == JsonView::Str("readonly"@));
        assert(r->Arr_0@[3]@ == JsonView::Str("static"@));
        assert(r->Arr_0@[4]@ == JsonView::Str("deprecated"@));
        assert(r->Arr_0@[5]@ == JsonView::Str("abstract"@));
        assert(r->Arr_0@[6]@ == JsonView::Str("async"@));
        assert(r->Arr_0@[7]@ == JsonView::Str("modification"@));
        assert(r->Arr_0@[8]@ == JsonView::Str("documentation"@));
        assert(r->Arr_0@[9]@ == JsonView::Str("defaultLibrary"@));
        assert(r@->Arr_0 =~= token_modifiers_view()->Arr_0);
    }
    r
}

/// The client capabilities announced in the handshake: completion with
/// context support, definition, references, diagnostics with related
/// information and version support, and full semantic tokens in relative
/// format with the client's token legend.
pub open spec fn capabilities_view() -> JsonView {
    JsonView::Obj(
        seq![
            (
                "textDocument"@,
                JsonView::Obj(
                    seq![
                        (
                            "completion"@,
                            JsonView::Obj(
                                seq![
                                    ("dynamicRegistration"@, JsonView::Bool(false)),
                                    ("contextSupport"@, JsonView::Bool(true)),
                                ],
                            ),
                        ),
                        (
                            "definition"@,
                            JsonView::Obj(
                                seq![
                                    ("dynamicRegistration"@, JsonView::Bool(false)),
                                    ("linkSupport"@, JsonView::Bool(false)),
                                ],
                            ),
                        ),
                        (
                            "references"@,
                            JsonView::Obj(
                                seq![("dynamicRegistration"@, JsonView::Bool(false))],
                            ),
                        ),
                        (
                            "publishDiagnostics"@,
                            JsonView::Obj(
                                seq![
                                    ("relatedInformation"@, JsonView::Bool(true)),
                                    ("versionSupport"@, JsonView::Bool(true)),
                                    ("codeDescriptionSupport"@, JsonView::Bool(false)),
                                    ("dataSupport"@, JsonView::Bool(false)),
                                ],
                            ),
                        ),
                        (
                            "semanticTokens"@,
                            JsonView::Obj(
                                seq![
                                    ("dynamicRegistration"@, JsonView::Bool(false)),
                                    (
                                        "requests"@,
                                        JsonView::Obj(
                                            seq![
                                                ("full"@, JsonView::Bool(true)),
                                                ("range"@, JsonView::Bool(false)),
                                            ],
                                        ),
                                    ),
                                    ("tokenTypes"@, token_types_view()),
                                    ("tokenModifiers"@, token_modifiers_view()),
                                    (
                                        "formats"@,
                                        JsonView::Arr(seq![JsonView::Str("relative"@)]),
                                    ),
                                    ("overlappingTokenSupport"@, JsonView::Bool(false)),
                                    ("multilineTokenSupport"@, JsonView::Bool(false)),
                                    ("serverCancelSupport"@, JsonView::Bool(false)),
                                    ("augmentsSyntaxTokens"@, JsonView::Bool(true)),
                                ],
                            ),
                        ),
                    ],
                ),
            ),
        ],
    )
}

fn make_capabilities() -> (r: Json)
    ensures
        r@ == capabilities_view(),
{
    let completion = Json::Obj(
        vec![
            ("dynamicRegistration".to_owned(), Json::Bool(false)),
            ("contextSupport".to_owned(), Json::Bool(true)),
        ],
    );
    proof {
        crate::json::lemma_obj_views(completion->Obj_0@);
        assert(completion@->Obj_0 =~= seq![
            ("dynamicRegistration"@, JsonView::Bool(false)),
            ("contextSupport"@, JsonView::Bool(true)),
        ]);
    }
    let definition = Json::Obj(
        vec![
            ("dynamicRegistration".to_owned(), Json::Bool(false)),
            ("linkSupport".to_owned(), Json::Bool(false)),
        ],
    );
    proof {
        crate::json::lemma_obj_views(definition->Obj_0@);
        assert(definition@->Obj_0 =~= seq![
            ("dynamicRegistration"@, JsonView::Bool(false)),
            ("linkSupport"@, JsonView::Bool(false)),
        ]);
    }
    let references = Json::Obj(vec![("dynamicRegistration".to_owned(), Json::Bool(false))]);
    proof {
        crate::json::lemma_obj_views(references->Obj_0@);
        assert(references@->Obj_0 =~= seq![("dynamicRegistration"@, JsonView::Bool(false))]);
    }
    let diags = Json::Obj(
        vec![
            ("relatedInformation".to_owned(), Json::Bool(true)),
            ("versionSupport".to_owned(), Json::Bool(true)),
            ("codeDescriptionSupport".to_owned(), Json::Bool(false)),
            ("dataSupport".to_owned(), Json::Bool(false)),
        ],
    );
    proof {
        crate::json::lemma_obj_views(diags->Obj_0@);
        assert(diags@->Obj_0 =~= seq![
            ("relatedInformation"@, JsonView::Bool(true)),
            ("versionSupport"@, JsonView::Bool(true)),
            ("codeDescriptionSupport"@, JsonView::Bool(false)),
            ("dataSupport"@, JsonView::Bool(false)),
        ]);
    }
    let requests = Json::Obj(
        vec![
            ("full".to_owned(), Json::Bool(true)),
            ("range".to_owned(), Json::Bool(false)),
        ],
    );
    proof {
        crate::json::lemma_obj_views(requests->Obj_0@);
        assert(requests@->Obj_0 =~= seq![
            ("full"@, JsonView::Bool(true)),
            ("range"@, JsonView::Bool(false)),
        ]);
    }
    let token_types = make_token_types();
    let token_modifiers = make_token_modifiers();
    let formats = Json::Arr(vec![Json::Str("relative".to_owned())]);
    proof {
        crate::json::lemma_arr_views(formats->Arr_0@);
        assert(formats@->Arr_0 =~= seq![JsonView::Str("relative"@)]);
    }
    let ghost requests_v = requests@;
    let ghost token_types_v = token_types@;
    let ghost token_modifiers_v = token_modifiers@;
    let ghost formats_v = formats@;
    let semtok = Json::Obj(
        vec![
            ("dynamicRegistration".to_owned(), Json::Bool(false)),
            ("requests".to_owned(), requests),
            ("tokenTypes".to_owned(), token_types),
            ("tokenModifiers".to_owned(), token_modifiers),
            ("formats".to_owned(), formats),
            ("overlappingTokenSupport".to_owned(), Json::Bool(false)),
            ("multilineTokenSupport".to_owned(), Json::Bool(false)),
            ("serverCancelSupport".to_owned(), Json::Bool(false)),
            ("augmentsSyntaxTokens".to_owned(), Json::Bool(true)),
        ],
    );
    proof {
        crate::json::lemma_obj_views(semtok->Obj_0@);
        assert(semtok@->Obj_0 =~= seq![
            ("dynamicRegistration"@, JsonView::Bool(false)),
            ("requests"@, requests_v),
            ("tokenTypes"@, token_types_v),
            ("tokenModifiers"@, token_modifiers_v),
            ("formats"@, formats_v),
            ("overlappingTokenSupport"@, JsonView::Bool(false)),
            ("multilineTokenSupport"@, JsonView::Bool(false)),
            ("serverCancelSupport"@, JsonView::Bool(false)),
            ("augmentsSyntaxTokens"@, JsonView::Bool(true)),
        ]);
    }
    let ghost completion_v = completion@;
    let ghost definition_v = definition@;
    let ghost references_v = references@;
    let ghost diags_v = diags@;
    let ghost semtok_v = semtok@;
    let td = Json::Obj(
        vec![
            ("completion".to_owned(), completion),
            ("definition".to_owned(), definition),
            ("references".to_owned(), references),
            ("publishDiagnostics".to_owned(), diags),
            ("semanticTokens".to_owned(), semtok),
        ],
    );
    proof {
        crate::json::lemma_obj_views(td->Obj_0@);
        assert(td@->Obj_0 =~= seq![
            ("completion"@, completion_v),
            ("definition"@, definition_v),
            ("references"@, references_v),
            ("publishDiagnostics"@, diags_v),
            ("semanticTokens"@, semtok_v),
        ]);
    }
    let ghost td_v = td@;
    let r = Json::Obj(vec![("textDocument".to_owned(), td)]);
    proof {
        crate::json::lemma_obj_views(r->Obj_0@);
        assert(r@->Obj_0 =~= seq![("textDocument"@, td_v)]);
        assert(r@ == capabilities_view());
    }
    r
}

/// The initialize parameters: the process id when one is given, the
/// workspace root URI, and the client capabilities.
pub open spec fn initialize_params_view(pid: Option<u64>, root_uri: Seq<char>) -> JsonView {
    JsonView::Obj(
        seq![
            (
                "processId"@,
                match pid {
                    Option::Some(p) => JsonView::Num(p as int),
                    Option::None => JsonView::Null,
                },
            ),
            ("rootUri"@, JsonView::Str(root_uri)),
            ("capabilities"@, capabilities_view()),
        ],
    )
}

impl ProcessClientCore {
    /// Queues the initialize request of the handshake.
    pub fn initialize(&mut self, process_id: Option<u64>) -> (id: u64)
        requires
            old(self).wf(),
            old(self).gen.next < u64::MAX,
        ensures
            final(self).wf(),
            final(self).outbox.deep_view() == old(self).outbox.deep_view() + seq![
                crate::codec::frame_body_view(
                    crate::json::ser_json(
                        crate::codec::request_view(
                            id as int,
                            "initialize"@,
                            initialize_params_view(
                                process_id,
                                file_uri_of(old(self).root_path@),
                            ),
                        ),
                    ),
                ),
            ],
            final(self).pending.spec_contains(id) && final(self).pending.spec_method_of(id)
                == "initialize"@,
            final(self).pending.entries@.len() == old(self).pending.entries@.len() + 1,
            forall|k: int|
                0 <= k < old(self).pending.entries@.len() ==> #[trigger] final(self).pending.entries@[k] == old(self).pending.entries@[k],
            final(self).pending.entries@.last().0 == id,
            (final(self).pending.entries@.last().1)@ == "initialize"@,
            final(self).events@ == old(self).events@,
            final(self).root_path@ == old(self).root_path@,
            final(self).language_id@ == old(self).language_id@,
            id == old(self).gen.next,
            final(self).gen.next == old(self).gen.next + 1,
    {
        let pid_json = match process_id {
            Some(p) => {
                let j = Json::Num { neg: false, mag: p };
                proof {
                    assert(process_id == Option::<u64>::Some(p));
                    assert(j@ == JsonView::Num(p as int));
                }
                j
            },
            None => Json::Null,
        };
        proof {
            assert(pid_json@ == (match process_id {
                Option::Some(p) => JsonView::Num(p as int),
                Option::None => JsonView::Null,
            }));
        }
        let root_uri = make_file_uri(self.root_path.as_str());
        let ghost root_uri_v = root_uri@;
        let caps = make_capabilities();
        let ghost caps_v = caps@;
        let ghost pid_v = pid_json@;
        let params = Json::Obj(
            vec![
                ("processId".to_owned(), pid_json),
                ("rootUri".to_owned(), Json::Str(root_uri)),
                ("capabilities".to_owned(), caps),
            ],
        );
        proof {
            crate::json::lemma_obj_views(params->Obj_0@);
            assert(params@->Obj_0 =~= seq![
                ("processId"@, pid_v),
                ("rootUri"@, JsonView::Str(root_uri_v)),
                ("capabilities"@, caps_v),
            ]);
            let want = initialize_params_view(process_id, file_uri_of(self.root_path@));
            assert(want->Obj_0.len() == 3);
            assert(params@->Obj_0.len() == 3);
            assert(params@->Obj_0[0] == want->Obj_0[0]);
            assert(params@->Obj_0[1] == want->Obj_0[1]);
            assert(params@->Obj_0[2] == want->Obj_0[2]);
            assert(params@->Obj_0 =~= want->Obj_0);
            assert(params@ == want);
        }
        self.send_request("initialize", params)
    }

    /// Queues the initialized notification that completes the handshake.
    pub fn initialized(&mut self)
        ensures
            final(self).outbox.deep_view() == old(self).outbox.deep_view() + seq![
                crate::codec::frame_body_view(
                    crate::json::ser_json(
                        crate::codec::notification_view(
                            "initialized"@,
                            JsonView::Obj(Seq::<(Seq<char>, JsonView)>::empty()),
                        ),
                    ),
                ),
            ],
            final(self).events@ == old(self).events@,
            final(self).pending.entries@ == old(self).pending.entries@,
            final(self).gen == old(self).gen,
            final(self).wf() == old(self).wf(),
            final(self).root_path@ == old(self).root_path@,
            final(self).language_id@ == old(self).language_id@,
    {
        let params = Json::Obj(Vec::new());
        proof {
            assert(params@->Obj_0 =~= Seq::<(Seq<char>, JsonView)>::empty());
        }
        self.send_notification("initialized", params)
    }

    /// The parameters of a document-open notification.
    pub open spec fn did_open_params_view(
        uri: Seq<char>,
        language_id: Seq<char>,
        text: Seq<char>,
    ) -> JsonView {
        JsonView::Obj(
            seq![
                (
                    "textDocument"@,
                    JsonView::Obj(
                        seq![
                            ("uri"@, JsonView::Str(uri)),
                            ("languageId"@, JsonView::Str(language_id)),
                            ("version"@, JsonView::Num(1)),
                            ("text"@, JsonView::Str(text)),
                        ],
                    ),
                ),
            ],
        )
    }

    /// Queues a document-open notification carrying the whole text.
    pub fn did_open(&mut self, file_path: &str, content: &str)
        ensures
            final(self).outbox.deep_view() == old(self).outbox.deep_view() + seq![
                crate::codec::frame_body_view(
                    crate::json::ser_json(
                        crate::codec::notification_view(
                            "textDocument/didOpen"@,
                            Self::did_open_params_view(
                                file_uri_of(file_path@),
                                old(self).language_id@,
                                content@,
                            ),
                        ),
                    ),
                ),
            ],
            final(self).events@ == old(self).events@,
            final(self).pending.entries@ == old(self).pending.entries@,
            final(self).gen == old(self).gen,
            final(self).wf() == old(self).wf(),
            final(self).root_path@ == old(self).root_path@,
            final(self).language_id@ == old(self).language_id@,
    {
        let uri = make_file_uri(file_path);
        let ghost uri_v = uri@;
        let td = Json::Obj(
            vec![
                ("uri".to_owned(), Json::Str(uri)),
                ("languageId".to_owned(), Json::Str(self.language_id.clone())),
                ("version".to_owned(), Json::Num { neg: false, mag: 1 }),
                ("text".to_owned(), Json::Str(content.to_owned())),
            ],
        );
        proof {
            crate::json::lemma_obj_views(td->Obj_0@);
            assert(td@->Obj_0 =~= seq![
                ("uri"@, JsonView::Str(uri_v)),
                ("languageId"@, JsonView::Str(self.language_id@)),
                ("version"@, JsonView::Num(1)),
                ("text"@, JsonView::Str(content@)),
            ]);
        }
        let ghost td_v = td@;
        let params = Json::Obj(vec![("textDocument".to_owned(), td)]);
        proof {
            crate::json::lemma_obj_views(params->Obj_0@);
            assert(params@->Obj_0 =~= seq![("textDocument"@, td_v)]);
        }
        self.send_notification("textDocument/didOpen", params)
    }

    /// The parameters of a document-change notification: a full replacement.
    pub open spec fn did_change_params_view(
        uri: Seq<char>,
        version: int,
        text: Seq<char>,
    ) -> JsonView {
        JsonView::Obj(
            seq![
                (
                    "textDocument"@,
                    JsonView::Obj(
                        seq![
                            ("uri"@, JsonView::Str(uri)),
                            ("version"@, JsonView::Num(version)),
                        ],
                    ),
                ),
                (
                    "contentChanges"@,
                    JsonView::Arr(
                        seq![JsonView::Obj(seq![("text"@, JsonView::Str(text))])],
                    ),
                ),
            ],
        )
    }

    /// Queues a document-change notification replacing the whole text.
    pub fn did_change(&mut self, file_path: &str, version: i32, content: &str)
        ensures
            final(self).outbox.deep_view() == old(self).outbox.deep_view() + seq![
                crate::codec::frame_body_view(
                    crate::json::ser_json(
                        crate::codec::notification_view(
                            "textDocument/didChange"@,
                            Self::did_change_params_view(
                                file_uri_of(file_path@),
                                version as int,
                                content@,
                            ),
                        ),
                    ),
                ),
            ],
            final(self).events@ == old(self).events@,
            final(self).pending.entries@ == old(self).pending.entries@,
            final(self).gen == old(self).gen,
            final(self).wf() == old(self).wf(),
            final(self).root_path@ == old(self).root_path@,
            final(self).language_id@ == old(self).language_id@,
    {
        let uri = make_file_uri(file_path);
        let ghost uri_v = uri@;
        let vjson = if version < 0 {
            Json::Num { neg: true, mag: (-(version as i64)) as u64 }
        } else {
            Json::Num { neg: false, mag: version as u64 }
        };
        proof {
            assert(vjson@ == JsonView::Num(version as int));
        }
        let ghost vjson_v = vjson@;
        let td = Json::Obj(
            vec![("uri".to_owned(), Json::Str(uri)), ("version".to_owned(), vjson)],
        );
        proof {
            crate::json::lemma_obj_views(td->Obj_0@);
            assert(td@->Obj_0 =~= seq![("uri"@, JsonView::Str(uri_v)), ("version"@, vjson_v)]);
        }
        let change = Json::Obj(vec![("text".to_owned(), Json::Str(content.to_owned()))]);
        proof {
            crate::json::lemma_obj_views(change->Obj_0@);
            assert(change@->Obj_0 =~= seq![("text"@, JsonView::Str(content@))]);
        }
        let ghost change_v = change@;
        let changes = Json::Arr(vec![change]);
        proof {
            crate::json::lemma_arr_views(changes->Arr_0@);
            assert(changes@->Arr_0 =~= seq![change_v]);
        }
        let ghost td_v = td@;
        let ghost changes_v = changes@;
        let params = Json::Obj(
            vec![("textDocument".to_owned(), td), ("contentChanges".to_owned(), changes)],
        );
        proof {
            crate::json::lemma_obj_views(params->Obj_0@);
            assert(params@->Obj_0 =~= seq![
                ("textDocument"@, td_v),
                ("contentChanges"@, changes_v),
            ]);
        }
        self.send_notification("textDocument/didChange", params)
    }

    /// The parameters of a semantic-tokens request.
    pub open spec fn semantic_tokens_params_view(uri: Seq<char>) -> JsonView {
        JsonView::Obj(seq![("textDocument"@, text_document_view(uri))])
    }

    /// Queues a semantic-tokens request.
    pub fn request_semantic_tokens(&mut self, file_path: &str) -> (id: u64)
        requires
            old(self).wf(),
            old(self).gen.next < u64::MAX,
        ensures
            final(self).wf(),
            final(self).outbox.deep_view() == old(self).outbox.deep_view() + seq![
                crate::codec::frame_body_view(
                    crate::json::ser_json(
                        crate::codec::request_view(
                            id as int,
                            "textDocument/semanticTokens/full"@,
                            Self::semantic_tokens_params_view(file_uri_of(file_path@)),
                        ),
                    ),
                ),
            ],
            final(self).pending.spec_contains(id) && final(self).pending.spec_method_of(id)
                == "textDocument/semanticTokens/full"@,
            final(self).events@ == old(self).events@,
            id == old(self).gen.next,
            final(self).gen.next == old(self).gen.next + 1,
            final(self).root_path@ == old(self).root_path@,
            final(self).language_id@ == old(self).language_id@,
    {
        let uri = make_file_uri(file_path);
        let ghost uri_v = uri@;
        let td = make_text_document(uri.as_str());
        let ghost td_v = td@;
        let params = Json::Obj(vec![("textDocument".to_owned(), td)]);
        proof {
            crate::json::lemma_obj_views(params->Obj_0@);
            assert(params@->Obj_0 =~= seq![("textDocument"@, td_v)]);
            assert(params@ == Self::semantic_tokens_params_view(file_uri_of(file_path@)));
        }
        self.send_request("textDocument/semanticTokens/full", params)
    }

    /// The parameters of a completion request: position and trigger context.
    pub open spec fn completion_params_view(
        uri: Seq<char>,
        line: u32,
        character: u32,
        trigger: Option<Seq<char>>,
    ) -> JsonView {
        JsonView::Obj(
            seq![
                ("textDocument"@, text_document_view(uri)),
                ("position"@, position_view(line, character)),
                (
                    "context"@,
                    match trigger {
                        Option::Some(t) => JsonView::Obj(
                            seq![
                                ("triggerKind"@, JsonView::Num(2)),
                                ("triggerCharacter"@, JsonView::Str(t)),
                            ],
                        ),
                        Option::None => JsonView::Obj(
                            seq![("triggerKind"@, JsonView::Num(1))],
                        ),
                    },
                ),
            ],
        )
    }

    /// Queues a completion request.
    pub fn request_completion(
        &mut self,
        file_path: &str,
        line: u32,
        character: u32,
        trigger_character: Option<String>,
    ) -> (id: u64)
        requires
            old(self).wf(),
            old(self).gen.next < u64::MAX,
        ensures
            final(self).wf(),
            final(self).outbox.deep_view() == old(self).outbox.deep_view() + seq![
                crate::codec::frame_body_view(
                    crate::json::ser_json(
                        crate::codec::request_view(
                            id as int,
                            "textDocument/completion"@,
                            Self::completion_params_view(
                                file_uri_of(file_path@),
                                line,
                                character,
                                crate::events::opt_str_view(trigger_character),
                            ),
                        ),
                    ),
                ),
            ],
            final(self).pending.spec_contains(id) && final(self).pending.spec_method_of(id)
                == "textDocument/completion"@,
            final(self).events@ == old(self).events@,
            id == old(self).gen.next,
            final(self).gen.next == old(self).gen.next + 1,
            final(self).root_path@ == old(self).root_path@,
            final(self).language_id@ == old(self).language_id@,
    {
        let uri = make_file_uri(file_path);
        let td = make_text_document(uri.as_str());
        let pos = make_position(line, character);
        let context = match &trigger_character {
            Some(t) => {
                let c = Json::Obj(
                    vec![
                        ("triggerKind".to_owned(), Json::Num { neg: false, mag: 2 }),
                        ("triggerCharacter".to_owned(), Json::Str(t.clone())),
                    ],
                );
                proof {
                    crate::json::lemma_obj_views(c->Obj_0@);
                    assert(c@->Obj_0 =~= seq![
                        ("triggerKind"@, JsonView::Num(2)),
                        ("triggerCharacter"@, JsonView::Str(t@)),
                    ]);
                    assert(crate::events::opt_str_view(trigger_character) == Option::Some(t@));
                }
                c
            },
            None => {
                let c = Json::Obj(
                    vec![("triggerKind".to_owned(), Json::Num { neg: false, mag: 1 })],
                );
                proof {
                    crate::json::lemma_obj_views(c->Obj_0@);
                    assert(c@->Obj_0 =~= seq![("triggerKind"@, JsonView::Num(1))]);
                    assert(crate::events::opt_str_view(trigger_character) is None);
                }
                c
            },
        };
        proof {
            assert(context@ == (match crate::events::opt_str_view(trigger_character) {
                Option::Some(t) => JsonView::Obj(
                    seq![
                        ("triggerKind"@, JsonView::Num(2)),
                        ("triggerCharacter"@, JsonView::Str(t)),
                    ],
                ),
                Option::None => JsonView::Obj(seq![("triggerKind"@, JsonView::Num(1))]),
            }));
        }
        let ghost td_v = td@;
        let ghost pos_v = pos@;
        let ghost ctx_v = context@;
        let params = Json::Obj(
            vec![
                ("textDocument".to_owned(), td),
                ("position".to_owned(), pos),
                ("context".to_owned(), context),
            ],
        );
        proof {
            crate::json::lemma_obj_views(params->Obj_0@);
            assert(params@->Obj_0 =~= seq![
                ("textDocument"@, td_v),
                ("position"@, pos_v),
                ("context"@, ctx_v),
            ]);
            let want = Self::completion_params_view(
                file_uri_of(file_path@),
                line,
                character,
                crate::events::opt_str_view(trigger_character),
            );
            assert(params@->Obj_0[0] == want->Obj_0[0]);
            assert(params@->Obj_0[1] == want->Obj_0[1]);
            assert(params@->Obj_0[2] == want->Obj_0[2]);
            assert(params@->Obj_0 =~= want->Obj_0);
            assert(params@ == want);
        }
        self.send_request("textDocument/completion", params)
    }

    /// The parameters of a definition request.
    pub open spec fn definition_params_view(uri: Seq<char>, line: u32, character: u32) -> JsonView {
        JsonView::Obj(
            seq![
                ("textDocument"@, text_document_view(uri)),
                ("position"@, position_view(line, character)),
            ],
        )
    }

    /// Queues a go-to-definition request.
    pub fn request_definition(&mut self, file_path: &str, line: u32, character: u32) -> (id: u64)
        requires
            old(self).wf(),
            old(self).gen.next < u64::MAX,
        ensures
            final(self).wf(),
            final(self).outbox.deep_view() == old(self).outbox.deep_view() + seq![
                crate::codec::frame_body_view(
                    crate::json::ser_json(
                        crate::codec::request_view(
                            id as int,
                            "textDocument/definition"@,
                            Self::definition_params_view(
                                file_uri_of(file_path@),
                                line,
                                character,
                            ),
                        ),
                    ),
                ),
            ],
            final(self).pending.spec_contains(id) && final(self).pending.spec_method_of(id)
                == "textDocument/definition"@,
            final(self).events@ == old(self).events@,
            id == old(self).gen.next,
            final(self).gen.next == old(self).gen.next + 1,
            final(self).root_path@ == old(self).root_path@,
            final(self).language_id@ == old(self).language_id@,
    {
        let uri = make_file_uri(file_path);
        let td = make_text_document(uri.as_str());
        let pos = make_position(line, character);
        let ghost td_v = td@;
        let ghost pos_v = pos@;
        let params = Json::Obj(
            vec![("textDocument".to_owned(), td), ("position".to_owned(), pos)],
        );
        proof {
            crate::json::lemma_obj_views(params->Obj_0@);
            assert(params@->Obj_0 =~= seq![("textDocument"@, td_v), ("position"@, pos_v)]);
        }
        self.send_request("textDocument/definition", params)
    }

    /// The parameters of a references request.
    pub open spec fn references_params_view(
        uri: Seq<char>,
        line: u32,
        character: u32,
        include_declaration: bool,
    ) -> JsonView {
        JsonView::Obj(
            seq![
                ("textDocument"@, text_document_view(uri)),
                ("position"@, position_view(line, character)),
                (
                    "context"@,
                    JsonView::Obj(
                        seq![("includeDeclaration"@, JsonView::Bool(include_declaration))],
                    ),
                ),
            ],
        )
    }

    /// Queues a find-references request.
    pub fn request_references(
        &mut self,
        file_path: &str,
        line: u32,
        character: u32,
        include_declaration: bool,
    ) -> (id: u64)
        requires
            old(self).wf(),
            old(self).gen.next < u64::MAX,
        ensures
            final(self).wf(),
            final(self).outbox.deep_view() == old(self).outbox.deep_view() + seq![
                crate::codec::frame_body_view(
                    crate::json::ser_json(
                        crate::codec::request_view(
                            id as int,
                            "textDocument/references"@,
                            Self::references_params_view(
                                file_uri_of(file_path@),
                                line,
                                character,
                                include_declaration,
                            ),
                        ),
                    ),
                ),
            ],
            final(self).pending.spec_contains(id) && final(self).pending.spec_method_of(id)
                == "textDocument/references"@,
            final(self).events@ == old(self).events@,
            id == old(self).gen.next,
            final(self).gen.next == old(self).gen.next + 1,
            final(self).root_path@ == old(self).root_path@,
            final(self).language_id@ == old(self).language_id@,
    {
        let uri = make_file_uri(file_path);
        let td = make_text_document(uri.as_str());
        let pos = make_position(line, character);
        let ctx = Json::Obj(
            vec![("includeDeclaration".to_owned(), Json::Bool(include_declaration))],
        );
        proof {
            crate::json::lemma_obj_views(ctx->Obj_0@);
            assert(ctx@->Obj_0 =~= seq![
                ("includeDeclaration"@, JsonView::Bool(include_declaration)),
            ]);
        }
        let ghost td_v = td@;
        let ghost pos_v = pos@;
        let ghost ctx_v = ctx@;
        let params = Json::Obj(
            vec![
                ("textDocument".to_owned(), td),
                ("position".to_owned(), pos),
                ("context".to_owned(), ctx),
            ],
        );
        proof {
            crate::json::lemma_obj_views(params->Obj_0@);
            assert(params@->Obj_0 =~= seq![
                ("textDocument"@, td_v),
                ("position"@, pos_v),
                ("context"@, ctx_v),
            ]);
        }
        self.send_request("textDocument/references", params)
    }

    /// Forgets all protocol state; killing the spawned process is the
    /// caller's part.
    pub fn shutdown(&mut self)
        requires
            old(self).wf(),
        ensures
            final(self).pending.entries@.len() == 0,
            final(self).outbox@.len() == 0,
            final(self).events@ == old(self).events@,
            final(self).gen == old(self).gen,
            final(self).language_id@ == old(self).language_id@,
            final(self).root_path@ == old(self).root_path@,
            final(self).wf(),
    {
        self.pending.entries.clear();
        self.outbox.clear();
    }
}

} // verus!
